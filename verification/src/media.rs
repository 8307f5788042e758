//! Media classification, resize geometry, decoder-argument construction,
//! and the assembly of outgoing frame items.

use vstd::prelude::*;
use crate::utils::FileItem;
use crate::utils::bytes_eq;
use crate::utils::clone_bytes;
use crate::export::clone_opt_bytes;

verus! {

/// A media processing failure, with the backend's diagnostic text.
pub enum MediaError {
    Io(Vec<u8>),
    ImageDecode(Vec<u8>),
    VideoDecode(Vec<u8>),
    WebpEncode(Vec<u8>),
}

/// The diagnostic line a failure turns into: what failed, then the
/// backend's text.
pub open spec fn describe_of(e: MediaError) -> Seq<u8> {
    match e {
        MediaError::Io(m) => lit_io_prefix() + m@,
        MediaError::ImageDecode(m) => lit_decode_prefix() + m@,
        MediaError::VideoDecode(m) => lit_decode_prefix() + m@,
        MediaError::WebpEncode(m) => lit_encode_prefix() + m@,
    }
}

impl MediaError {
    /// Render the failure as the diagnostic line the export records carry.
    pub fn describe(&self) -> (r: Vec<u8>)
        ensures
            r@ == describe_of(*self),
    {
        match self {
            MediaError::Io(m) => {
                let mut r = lit_io_prefix_vec();
                crate::json::push_bytes(&mut r, m);
                r
            },
            MediaError::ImageDecode(m) => {
                let mut r = lit_decode_prefix_vec();
                crate::json::push_bytes(&mut r, m);
                r
            },
            MediaError::VideoDecode(m) => {
                let mut r = lit_decode_prefix_vec();
                crate::json::push_bytes(&mut r, m);
                r
            },
            MediaError::WebpEncode(m) => {
                let mut r = lit_encode_prefix_vec();
                crate::json::push_bytes(&mut r, m);
                r
            },
        }
    }
}

/// A successfully encoded still to be sent: the owning work item, the
/// compressed payload, the post-resize dimensions, and the frame position.
pub struct Frame {
    pub file: FileItem,
    pub webp: Vec<u8>,
    pub width: usize,
    pub height: usize,
    pub iframe_index: usize,
    pub total_frames: usize,
    pub shoot_time: Option<Vec<u8>>,
}

/// A file that failed decode or encode, with its diagnostic line.
pub struct ErrFile {
    pub file: FileItem,
    pub error: Vec<u8>,
}

/// One item leaving the media worker.
pub enum WebpItem {
    Frame(Frame),
    ErrFile(ErrFile),
}

/// What kind of media a file holds, by its extension.
#[derive(Clone, Copy, PartialEq, Eq, Structural, Debug)]
pub enum MediaKind {
    Image,
    Video,
    Other,
}

// ---------------------------------------------------------------------------
// Extension classification.
/// Lowercase an ASCII letter byte.
pub open spec fn ascii_lower(b: u8) -> u8 {
    if 65 <= b <= 90 {
        (b + 32) as u8
    } else {
        b
    }
}

/// Lowercase every byte of `s`.
pub open spec fn lower_bytes(s: Seq<u8>) -> Seq<u8> {
    Seq::new(s.len(), |i: int| ascii_lower(s[i]))
}

/// The position of the last occurrence of `b` in `s`, or `-1`.
pub open spec fn last_pos(s: Seq<u8>, b: u8) -> int
    decreases s.len(),
{
    if s.len() == 0 {
        -1
    } else if s.last() == b {
        s.len() - 1
    } else {
        last_pos(s.drop_last(), b)
    }
}

/// The extension of a path: the bytes after the last dot of the last path
/// component, none when the component has no dot or starts with its only
/// dot.
pub open spec fn ext_of(p: Seq<u8>) -> Option<Seq<u8>> {
    let name = p.skip(last_pos(p, 47) + 1);
    let q = last_pos(name, 46);
    if q <= 0 {
        None
    } else {
        Some(name.skip(q + 1))
    }
}

/// A lowercased extension naming a still-image format.
pub open spec fn is_image_ext(e: Seq<u8>) -> bool {
    lower_bytes(e) == lit_ext_jpg() || lower_bytes(e) == lit_ext_jpeg() || lower_bytes(e)
        == lit_ext_png()
}

/// A lowercased extension naming a video container.
pub open spec fn is_video_ext(e: Seq<u8>) -> bool {
    lower_bytes(e) == lit_ext_mp4() || lower_bytes(e) == lit_ext_avi() || lower_bytes(e)
        == lit_ext_mkv() || lower_bytes(e) == lit_ext_mov()
}

/// The media kind of the file at `p`.
pub open spec fn classify(p: Seq<u8>) -> MediaKind {
    match ext_of(p) {
        Some(e) => if is_image_ext(e) {
            MediaKind::Image
        } else if is_video_ext(e) {
            MediaKind::Video
        } else {
            MediaKind::Other
        },
        None => MediaKind::Other,
    }
}

/// The position of the last occurrence of `b` in `v`, if any.
fn find_last(v: &Vec<u8>, from: usize, b: u8) -> (r: Option<usize>)
    requires
        from <= v@.len(),
    ensures
        match r {
            Some(k) => from <= k < v@.len() && last_pos(v@.skip(from as int), b) == k - from,
            None => last_pos(v@.skip(from as int), b) == -1,
        },
{
    let ghost tail = v@.skip(from as int);
    let mut j: usize = v.len();
    proof {
        assert(tail.take(tail.len() as int) =~= tail);
    }
    while j > from
        invariant
            from <= j <= v@.len(),
            tail == v@.skip(from as int),
            last_pos(tail, b) == last_pos(tail.take(j - from), b),
        decreases j,
    {
        proof {
            let t = tail.take(j - from);
            assert(t.last() == tail[j - from - 1]);
            assert(tail[j - from - 1] == v@[j - 1]);
            assert(t.drop_last() =~= tail.take(j - from - 1));
        }
        if v[j - 1] == b {
            return Some(j - 1);
        }
        j = j - 1;
    }
    proof {
        assert(tail.take(0) =~= Seq::<u8>::empty());
    }
    None
}

/// The lowercased extension of the path, if it has one.
pub fn extension_of(p: &Vec<u8>) -> (r: Option<Vec<u8>>)
    ensures
        match r {
            Some(e) => ext_of(p@) matches Some(x) && e@ == lower_bytes(x),
            None => ext_of(p@) is None,
        },
{
    let n = p.len();
    proof {
        assert(p@.len() <= usize::MAX);
    }
    let name_start: usize = match find_last(p, 0, 47) {
        Some(k) => k + 1,
        None => 0,
    };
    proof {
        assert(p@.skip(0) =~= p@);
    }
    let q = match find_last(p, name_start, 46) {
        Some(k) => k,
        None => {
            return None;
        },
    };
    if q == name_start {
        return None;
    }
    let mut e: Vec<u8> = Vec::new();
    let mut k: usize = q + 1;
    let ghost name = p@.skip(name_start as int);
    let ghost x = name.skip(q - name_start + 1);
    while k < p.len()
        invariant
            q + 1 <= k <= p@.len(),
            name_start <= q < p@.len(),
            x == p@.skip(name_start as int).skip(q - name_start + 1),
            e@ == lower_bytes(x.take(k - q - 1)),
        decreases p@.len() - k,
    {
        let b = p[k];
        let lb: u8 = if 65 <= b && b <= 90 {
            b + 32
        } else {
            b
        };
        e.push(lb);
        proof {
            assert(x[k - q - 1] == p@[k as int]);
            assert(lower_bytes(x.take(k - q - 1 + 1)) =~= lower_bytes(x.take(k - q - 1)).push(
                ascii_lower(x[k - q - 1]),
            ));
        }
        k = k + 1;
    }
    proof {
        assert(x.take(x.len() as int) =~= x);
        assert(e@ =~= lower_bytes(x));
    }
    Some(e)
}

/// The media kind of the file at `p`.
pub fn media_kind_of_path(p: &Vec<u8>) -> (r: MediaKind)
    ensures
        r == classify(p@),
{
    let e = match extension_of(p) {
        Some(e) => e,
        None => {
            return MediaKind::Other;
        },
    };
    proof {
        let x = ext_of(p@)->Some_0;
        assert(lower_bytes(lower_bytes(x)) =~= lower_bytes(x));
    }
    let jpg = lit_ext_jpg_vec();
    let jpeg = lit_ext_jpeg_vec();
    let png = lit_ext_png_vec();
    if bytes_eq(&e, &jpg) || bytes_eq(&e, &jpeg) || bytes_eq(&e, &png) {
        return MediaKind::Image;
    }
    let mp4 = lit_ext_mp4_vec();
    let avi = lit_ext_avi_vec();
    let mkv = lit_ext_mkv_vec();
    let mov = lit_ext_mov_vec();
    if bytes_eq(&e, &mp4) || bytes_eq(&e, &avi) || bytes_eq(&e, &mkv) || bytes_eq(&e, &mov) {
        return MediaKind::Video;
    }
    MediaKind::Other
}

/// Whether the path names a media file the pipeline handles.
pub fn is_video_photo(p: &Vec<u8>) -> (r: bool)
    ensures
        r == (classify(p@) != MediaKind::Other),
{
    let k = media_kind_of_path(p);
    match k {
        MediaKind::Other => false,
        _ => true,
    }
}

// ---------------------------------------------------------------------------
// Resize geometry.
/// Round up to the next even integer.
pub open spec fn even_up(x: nat) -> nat {
    x + x % 2
}

/// The dimensions after resizing so that the larger side equals `imgsz`,
/// preserving aspect ratio, the shorter side rounded up to even.
pub open spec fn resize_dims(w: nat, h: nat, imgsz: nat) -> (nat, nat)
    recommends
        0 < w,
        0 < h,
        0 < imgsz,
{
    if w > h {
        (imgsz, even_up((h * imgsz) / w))
    } else {
        (even_up((w * imgsz) / h), imgsz)
    }
}

/// Compute the resized dimensions of a decoded image.
pub fn resized_dimensions(width: usize, height: usize, imgsz: usize) -> (r: (usize, usize))
    requires
        0 < width,
        0 < height,
        0 < imgsz,
        imgsz < usize::MAX,
    ensures
        (r.0 as nat, r.1 as nat) == resize_dims(width as nat, height as nat, imgsz as nat),
        r.0 <= imgsz + 1,
        r.1 <= imgsz + 1,
{
    proof {
        assert((width as u128) * (imgsz as u128) <= u64::MAX as u128 * u64::MAX as u128)
            by (nonlinear_arith)
            requires
                width as u128 <= u64::MAX as u128,
                imgsz as u128 <= u64::MAX as u128,
        ;
        assert((height as u128) * (imgsz as u128) <= u64::MAX as u128 * u64::MAX as u128)
            by (nonlinear_arith)
            requires
                height as u128 <= u64::MAX as u128,
                imgsz as u128 <= u64::MAX as u128,
        ;
    }
    if width > height {
        let scaled: u128 = (height as u128) * (imgsz as u128) / (width as u128);
        proof {
            assert((height as int) * (imgsz as int) / (width as int) <= imgsz as int)
                by (nonlinear_arith)
                requires
                    0 < width as int,
                    height as int <= width as int,
                    0 < imgsz as int,
            ;
        }
        let short: usize = scaled as usize;
        let rounded: usize = short + short % 2;
        (imgsz, rounded)
    } else {
        let scaled: u128 = (width as u128) * (imgsz as u128) / (height as u128);
        proof {
            assert((width as int) * (imgsz as int) / (height as int) <= imgsz as int)
                by (nonlinear_arith)
                requires
                    0 < height as int,
                    width as int <= height as int,
                    0 < imgsz as int,
            ;
        }
        let short: usize = scaled as usize;
        let rounded: usize = short + short % 2;
        (rounded, imgsz)
    }
}

// ---------------------------------------------------------------------------
// Decoder invocation arguments.
/// The scale filter handed to the external decoder: fit within a square of
/// `imgsz`, keeping aspect ratio.
pub open spec fn scale_filter(imgsz: nat) -> Seq<u8> {
    lit_scale_w() + (crate::json::dec_bytes(imgsz) + (lit_scale_h() + (crate::json::dec_bytes(
        imgsz,
    ) + lit_scale_tail())))
}

/// The fixed argument list for the external decoder: drop audio, scale,
/// raw 24-bit output, variable frame rate.
pub open spec fn decoder_output_args(imgsz: nat) -> Seq<Seq<u8>> {
    seq![
        lit_arg_an(),
        lit_arg_vf(),
        scale_filter(imgsz),
        lit_arg_f(),
        lit_arg_rawvideo(),
        lit_arg_pix_fmt(),
        lit_arg_rgb24(),
        lit_arg_vsync(),
        lit_arg_vfr(),
    ]
}

/// The extra arguments that keep only key frames.
pub open spec fn decoder_iframe_args() -> Seq<Seq<u8>> {
    seq![lit_arg_skip_frame(), lit_arg_nokey()]
}

/// Build the scale filter text.
pub fn build_scale_filter(imgsz: usize) -> (r: Vec<u8>)
    ensures
        r@ == scale_filter(imgsz as nat),
{
    let mut r = lit_scale_w_vec();
    crate::json::push_dec(&mut r, imgsz);
    let l = lit_scale_h_vec();
    crate::json::push_bytes(&mut r, &l);
    crate::json::push_dec(&mut r, imgsz);
    let l = lit_scale_tail_vec();
    crate::json::push_bytes(&mut r, &l);
    proof {
        assert(r@ =~= scale_filter(imgsz as nat));
    }
    r
}

/// Build the decoder's output argument list.
pub fn build_decoder_output_args(imgsz: usize) -> (r: Vec<Vec<u8>>)
    ensures
        r@.map_values(|a: Vec<u8>| a@) == decoder_output_args(imgsz as nat),
{
    let mut r: Vec<Vec<u8>> = Vec::new();
    r.push(lit_arg_an_vec());
    r.push(lit_arg_vf_vec());
    r.push(build_scale_filter(imgsz));
    r.push(lit_arg_f_vec());
    r.push(lit_arg_rawvideo_vec());
    r.push(lit_arg_pix_fmt_vec());
    r.push(lit_arg_rgb24_vec());
    r.push(lit_arg_vsync_vec());
    r.push(lit_arg_vfr_vec());
    proof {
        assert(r@.map_values(|a: Vec<u8>| a@) =~= decoder_output_args(imgsz as nat));
    }
    r
}

/// Build the key-frames-only argument list.
pub fn build_decoder_iframe_args() -> (r: Vec<Vec<u8>>)
    ensures
        r@.map_values(|a: Vec<u8>| a@) == decoder_iframe_args(),
{
    let mut r: Vec<Vec<u8>> = Vec::new();
    r.push(lit_arg_skip_frame_vec());
    r.push(lit_arg_nokey_vec());
    proof {
        assert(r@.map_values(|a: Vec<u8>| a@) =~= decoder_iframe_args());
    }
    r
}

// ---------------------------------------------------------------------------
// Tolerated decoder noise.
/// `p` occurs somewhere in `s`.
pub open spec fn contains_sub(s: Seq<u8>, p: Seq<u8>) -> bool {
    exists|i: int| 0 <= i && i + p.len() <= s.len() && #[trigger] s.subrange(i, i + p.len()) == p
}

/// Whether `needle` occurs in `hay`.
pub fn contains_bytes(hay: &Vec<u8>, needle: &Vec<u8>) -> (r: bool)
    ensures
        r == contains_sub(hay@, needle@),
{
    if needle.len() > hay.len() {
        proof {
            assert(!contains_sub(hay@, needle@));
        }
        return false;
    }
    if needle.len() == 0 {
        proof {
            assert(hay@.subrange(0, 0 + needle@.len() as int) =~= needle@);
            assert(contains_sub(hay@, needle@));
        }
        return true;
    }
    let last_start = hay.len() - needle.len();
    let mut i: usize = 0;
    while i <= last_start
        invariant
            1 <= needle@.len() <= hay@.len(),
            hay@.len() <= usize::MAX,
            last_start == hay@.len() - needle@.len(),
            i <= last_start + 1,
            forall|j: int|
                0 <= j < i ==> #[trigger] hay@.subrange(j, j + needle@.len()) != needle@,
        decreases last_start + 1 - i,
    {
        let mut k: usize = 0;
        let mut matches = true;
        while k < needle.len()
            invariant
                i + needle@.len() <= hay@.len(),
                hay@.len() <= usize::MAX,
                k <= needle@.len(),
                matches ==> forall|m: int| 0 <= m < k ==> hay@[i + m] == needle@[m],
                !matches ==> hay@.subrange(i as int, i as int + needle@.len()) != needle@,
            decreases needle@.len() - k,
        {
            if hay[i + k] != needle[k] {
                proof {
                    assert(hay@.subrange(i as int, i as int + needle@.len())[k as int] == hay@[i
                        + k]);
                }
                matches = false;
                k = needle.len();
            } else {
                k = k + 1;
            }
        }
        if matches {
            proof {
                assert(hay@.subrange(i as int, i as int + needle@.len()) =~= needle@);
            }
            return true;
        }
        i = i + 1;
    }
    proof {
        assert forall|j: int| 0 <= j && j + needle@.len() <= hay@.len() implies #[trigger] hay@.subrange(
            j,
            j + needle@.len(),
        ) != needle@ by {
            assert(j < i);
        }
    }
    false
}

/// The decoder log lines that are tolerated and skipped rather than failing
/// the file.
pub open spec fn tolerated_decode_error(s: Seq<u8>) -> bool {
    contains_sub(s, lit_pat_slice_header()) || contains_sub(s, lit_pat_frame_num()) || contains_sub(
        s,
        lit_pat_decoding_mb(),
    )
}

/// Whether a decoder error line is tolerated noise.
pub fn is_tolerated_decode_error(msg: &Vec<u8>) -> (r: bool)
    ensures
        r == tolerated_decode_error(msg@),
{
    let p1 = lit_pat_slice_header_vec();
    if contains_bytes(msg, &p1) {
        return true;
    }
    let p2 = lit_pat_frame_num_vec();
    if contains_bytes(msg, &p2) {
        return true;
    }
    let p3 = lit_pat_decoding_mb_vec();
    contains_bytes(msg, &p3)
}

// ---------------------------------------------------------------------------
// Outcome assembly.
/// Whether the staged copy must be deleted after processing.
pub fn needs_staged_cleanup(file: &FileItem) -> (r: bool)
    ensures
        r == (file@.file_path != file@.tmp_path),
{
    !bytes_eq(&file.file_path, &file.tmp_path)
}

/// The failure item for a file.
pub fn error_item(file: &FileItem, error: MediaError) -> (r: WebpItem)
    ensures
        r matches WebpItem::ErrFile(ef) && ef.file@ == file@ && ef.error@ == describe_of(error),
{
    WebpItem::ErrFile(ErrFile { file: file.clone(), error: error.describe() })
}

/// Assemble the outcome of one still image: the frame when both decode and
/// encode succeeded, the failure item otherwise. The frame carries the
/// post-resize dimensions of its payload.
pub fn process_image(
    file: &FileItem,
    decoded: Result<(usize, usize), MediaError>,
    imgsz: usize,
    webp: Option<Vec<u8>>,
    shoot_time: Option<Vec<u8>>,
) -> (r: WebpItem)
    requires
        0 < imgsz < usize::MAX,
        match decoded {
            Ok(dims) => 0 < dims.0 && 0 < dims.1,
            Err(_) => true,
        },
    ensures
        match decoded {
            Err(e) => r matches WebpItem::ErrFile(ef) && ef.file@ == file@ && ef.error@
                == describe_of(e),
            Ok(dims) => match webp {
                None => r matches WebpItem::ErrFile(ef) && ef.file@ == file@ && ef.error@
                    == lit_encode_prefix() + lit_encode_image_failed(),
                Some(w) => r matches WebpItem::Frame(fr) && fr.file@ == file@ && fr.webp@ == w@
                    && (fr.width as nat, fr.height as nat) == resize_dims(
                    dims.0 as nat,
                    dims.1 as nat,
                    imgsz as nat,
                ) && fr.iframe_index == 0 && fr.total_frames == 1 && crate::json::opt_view(
                    fr.shoot_time,
                ) == crate::json::opt_view(shoot_time),
            },
        },
{
    match decoded {
        Err(e) => error_item(file, e),
        Ok(dims) => match webp {
            None => error_item(file, MediaError::WebpEncode(lit_encode_image_failed_vec())),
            Some(w) => {
                let (width, height) = resized_dimensions(dims.0, dims.1, imgsz);
                WebpItem::Frame(
                    Frame {
                        file: file.clone(),
                        webp: w,
                        width,
                        height,
                        iframe_index: 0,
                        total_frames: 1,
                        shoot_time,
                    },
                )
            },
        },
    }
}

/// Assemble the outcomes of a decoded video: one frame per sampled,
/// re-encoded image, each carrying its sampled index and the sample count.
/// `width` and `height` are the post-resize dimensions the external scaler
/// reported for the decoded frames.
pub fn process_video(
    file: &FileItem,
    width: usize,
    height: usize,
    shoot_time: &Option<Vec<u8>>,
    webps: Vec<Vec<u8>>,
    indices: &Vec<usize>,
) -> (r: Vec<WebpItem>)
    requires
        webps@.len() == indices@.len(),
    ensures
        r@.len() == webps@.len(),
        forall|i: int|
            0 <= i < r@.len() ==> (#[trigger] r@[i] matches WebpItem::Frame(fr) && fr.file@
                == file@ && fr.webp@ == webps@[i]@ && fr.width == width && fr.height == height
                && fr.iframe_index == indices@[i] && fr.total_frames == webps@.len()
                && crate::json::opt_view(fr.shoot_time) == crate::json::opt_view(*shoot_time)),
{
    let total = webps.len();
    let mut r: Vec<WebpItem> = Vec::new();
    let mut i: usize = 0;
    while i < webps.len()
        invariant
            i <= webps@.len(),
            total == webps@.len(),
            webps@.len() == indices@.len(),
            r@.len() == i,
            forall|j: int|
                0 <= j < i ==> (#[trigger] r@[j] matches WebpItem::Frame(fr) && fr.file@
                    == file@ && fr.webp@ == webps@[j]@ && fr.width == width && fr.height == height
                    && fr.iframe_index == indices@[j] && fr.total_frames == webps@.len()
                    && crate::json::opt_view(fr.shoot_time) == crate::json::opt_view(*shoot_time)),
        decreases webps@.len() - i,
    {
        r.push(
            WebpItem::Frame(
                Frame {
                    file: file.clone(),
                    webp: clone_bytes(&webps[i]),
                    width,
                    height,
                    iframe_index: indices[i],
                    total_frames: total,
                    shoot_time: clone_opt_bytes(shoot_time),
                },
            ),
        );
        i = i + 1;
    }
    r
}

/// Pick the capture time of a still: the original capture tag when present,
/// the modification tag otherwise.
pub fn select_shoot_time(original: Option<Vec<u8>>, modified: Option<Vec<u8>>) -> (r: Option<
    Vec<u8>,
>)
    ensures
        crate::json::opt_view(r) == (match original {
            Some(t) => Some(t@),
            None => crate::json::opt_view(modified),
        }),
{
    match original {
        Some(t) => Some(t),
        None => modified,
    }
}

/// The capture time stood in for a video: the earlier of the modification
/// and change timestamps.
pub fn video_timestamp(mtime: i64, ctime: i64) -> (r: i64)
    ensures
        r == if mtime <= ctime {
            mtime
        } else {
            ctime
        },
{
    if mtime <= ctime {
        mtime
    } else {
        ctime
    }
}

/// The text `jpg`.
pub open spec fn lit_ext_jpg() -> Seq<u8> {
    seq![106u8, 112u8, 103u8]
}

pub fn lit_ext_jpg_vec() -> (r: Vec<u8>)
    ensures
        r@ == lit_ext_jpg(),
{
    let mut r: Vec<u8> = Vec::new();
    r.push(106u8);
    r.push(112u8);
    r.push(103u8);
    proof {
        assert(r@ =~= lit_ext_jpg());
    }
    r
}

/// The text `jpeg`.
pub open spec fn lit_ext_jpeg() -> Seq<u8> {
    seq![106u8, 112u8, 101u8, 103u8]
}

pub fn lit_ext_jpeg_vec() -> (r: Vec<u8>)
    ensures
        r@ == lit_ext_jpeg(),
{
    let mut r: Vec<u8> = Vec::new();
    r.push(106u8);
    r.push(112u8);
    r.push(101u8);
    r.push(103u8);
    proof {
        assert(r@ =~= lit_ext_jpeg());
    }
    r
}

/// The text `png`.
pub open spec fn lit_ext_png() -> Seq<u8> {
    seq![112u8, 110u8, 103u8]
}

pub fn lit_ext_png_vec() -> (r: Vec<u8>)
    ensures
        r@ == lit_ext_png(),
{
    let mut r: Vec<u8> = Vec::new();
    r.push(112u8);
    r.push(110u8);
    r.push(103u8);
    proof {
        assert(r@ =~= lit_ext_png());
    }
    r
}

/// The text `mp4`.
pub open spec fn lit_ext_mp4() -> Seq<u8> {
    seq![109u8, 112u8, 52u8]
}

pub fn lit_ext_mp4_vec() -> (r: Vec<u8>)
    ensures
        r@ == lit_ext_mp4(),
{
    let mut r: Vec<u8> = Vec::new();
    r.push(109u8);
    r.push(112u8);
    r.push(52u8);
    proof {
        assert(r@ =~= lit_ext_mp4());
    }
    r
}

/// The text `avi`.
pub open spec fn lit_ext_avi() -> Seq<u8> {
    seq![97u8, 118u8, 105u8]
}

pub fn lit_ext_avi_vec() -> (r: Vec<u8>)
    ensures
        r@ == lit_ext_avi(),
{
    let mut r: Vec<u8> = Vec::new();
    r.push(97u8);
    r.push(118u8);
    r.push(105u8);
    proof {
        assert(r@ =~= lit_ext_avi());
    }
    r
}

/// The text `mkv`.
pub open spec fn lit_ext_mkv() -> Seq<u8> {
    seq![109u8, 107u8, 118u8]
}

pub fn lit_ext_mkv_vec() -> (r: Vec<u8>)
    ensures
        r@ == lit_ext_mkv(),
{
    let mut r: Vec<u8> = Vec::new();
    r.push(109u8);
    r.push(107u8);
    r.push(118u8);
    proof {
        assert(r@ =~= lit_ext_mkv());
    }
    r
}

/// The text `mov`.
pub open spec fn lit_ext_mov() -> Seq<u8> {
    seq![109u8, 111u8, 118u8]
}

pub fn lit_ext_mov_vec() -> (r: Vec<u8>)
    ensures
        r@ == lit_ext_mov(),
{
    let mut r: Vec<u8> = Vec::new();
    r.push(109u8);
    r.push(111u8);
    r.push(118u8);
    proof {
        assert(r@ =~= lit_ext_mov());
    }
    r
}

/// The text `Failed to open file: `.
pub open spec fn lit_io_prefix() -> Seq<u8> {
    seq![70u8, 97u8, 105u8, 108u8, 101u8, 100u8, 32u8, 116u8, 111u8, 32u8, 111u8, 112u8, 101u8, 110u8, 32u8, 102u8, 105u8, 108u8, 101u8, 58u8, 32u8]
}

pub fn lit_io_prefix_vec() -> (r: Vec<u8>)
    ensures
        r@ == lit_io_prefix(),
{
    let mut r: Vec<u8> = Vec::new();
    r.push(70u8);
    r.push(97u8);
    r.push(105u8);
    r.push(108u8);
    r.push(101u8);
    r.push(100u8);
    r.push(32u8);
    r.push(116u8);
    r.push(111u8);
    r.push(32u8);
    r.push(111u8);
    r.push(112u8);
    r.push(101u8);
    r.push(110u8);
    r.push(32u8);
    r.push(102u8);
    r.push(105u8);
    r.push(108u8);
    r.push(101u8);
    r.push(58u8);
    r.push(32u8);
    proof {
        assert(r@ =~= lit_io_prefix());
    }
    r
}

/// The text `Failed to decode: `.
pub open spec fn lit_decode_prefix() -> Seq<u8> {
    seq![70u8, 97u8, 105u8, 108u8, 101u8, 100u8, 32u8, 116u8, 111u8, 32u8, 100u8, 101u8, 99u8, 111u8, 100u8, 101u8, 58u8, 32u8]
}

pub fn lit_decode_prefix_vec() -> (r: Vec<u8>)
    ensures
        r@ == lit_decode_prefix(),
{
    let mut r: Vec<u8> = Vec::new();
    r.push(70u8);
    r.push(97u8);
    r.push(105u8);
    r.push(108u8);
    r.push(101u8);
    r.push(100u8);
    r.push(32u8);
    r.push(116u8);
    r.push(111u8);
    r.push(32u8);
    r.push(100u8);
    r.push(101u8);
    r.push(99u8);
    r.push(111u8);
    r.push(100u8);
    r.push(101u8);
    r.push(58u8);
    r.push(32u8);
    proof {
        assert(r@ =~= lit_decode_prefix());
    }
    r
}

/// The text `Failed to encode: `.
pub open spec fn lit_encode_prefix() -> Seq<u8> {
    seq![70u8, 97u8, 105u8, 108u8, 101u8, 100u8, 32u8, 116u8, 111u8, 32u8, 101u8, 110u8, 99u8, 111u8, 100u8, 101u8, 58u8, 32u8]
}

pub fn lit_encode_prefix_vec() -> (r: Vec<u8>)
    ensures
        r@ == lit_encode_prefix(),
{
    let mut r: Vec<u8> = Vec::new();
    r.push(70u8);
    r.push(97u8);
    r.push(105u8);
    r.push(108u8);
    r.push(101u8);
    r.push(100u8);
    r.push(32u8);
    r.push(116u8);
    r.push(111u8);
    r.push(32u8);
    r.push(101u8);
    r.push(110u8);
    r.push(99u8);
    r.push(111u8);
    r.push(100u8);
    r.push(101u8);
    r.push(58u8);
    r.push(32u8);
    proof {
        assert(r@ =~= lit_encode_prefix());
    }
    r
}

/// The text `Failed to encode image`.
pub open spec fn lit_encode_image_failed() -> Seq<u8> {
    seq![70u8, 97u8, 105u8, 108u8, 101u8, 100u8, 32u8, 116u8, 111u8, 32u8, 101u8, 110u8, 99u8, 111u8, 100u8, 101u8, 32u8, 105u8, 109u8, 97u8, 103u8, 101u8]
}

pub fn lit_encode_image_failed_vec() -> (r: Vec<u8>)
    ensures
        r@ == lit_encode_image_failed(),
{
    let mut r: Vec<u8> = Vec::new();
    r.push(70u8);
    r.push(97u8);
    r.push(105u8);
    r.push(108u8);
    r.push(101u8);
    r.push(100u8);
    r.push(32u8);
    r.push(116u8);
    r.push(111u8);
    r.push(32u8);
    r.push(101u8);
    r.push(110u8);
    r.push(99u8);
    r.push(111u8);
    r.push(100u8);
    r.push(101u8);
    r.push(32u8);
    r.push(105u8);
    r.push(109u8);
    r.push(97u8);
    r.push(103u8);
    r.push(101u8);
    proof {
        assert(r@ =~= lit_encode_image_failed());
    }
    r
}

/// The text `decode_slice_header error`.
pub open spec fn lit_pat_slice_header() -> Seq<u8> {
    seq![100u8, 101u8, 99u8, 111u8, 100u8, 101u8, 95u8, 115u8, 108u8, 105u8, 99u8, 101u8, 95u8, 104u8, 101u8, 97u8, 100u8, 101u8, 114u8, 32u8, 101u8, 114u8, 114u8, 111u8, 114u8]
}

pub fn lit_pat_slice_header_vec() -> (r: Vec<u8>)
    ensures
        r@ == lit_pat_slice_header(),
{
    let mut r: Vec<u8> = Vec::new();
    r.push(100u8);
    r.push(101u8);
    r.push(99u8);
    r.push(111u8);
    r.push(100u8);
    r.push(101u8);
    r.push(95u8);
    r.push(115u8);
    r.push(108u8);
    r.push(105u8);
    r.push(99u8);
    r.push(101u8);
    r.push(95u8);
    r.push(104u8);
    r.push(101u8);
    r.push(97u8);
    r.push(100u8);
    r.push(101u8);
    r.push(114u8);
    r.push(32u8);
    r.push(101u8);
    r.push(114u8);
    r.push(114u8);
    r.push(111u8);
    r.push(114u8);
    proof {
        assert(r@ =~= lit_pat_slice_header());
    }
    r
}

/// The text `Frame num change`.
pub open spec fn lit_pat_frame_num() -> Seq<u8> {
    seq![70u8, 114u8, 97u8, 109u8, 101u8, 32u8, 110u8, 117u8, 109u8, 32u8, 99u8, 104u8, 97u8, 110u8, 103u8, 101u8]
}

pub fn lit_pat_frame_num_vec() -> (r: Vec<u8>)
    ensures
        r@ == lit_pat_frame_num(),
{
    let mut r: Vec<u8> = Vec::new();
    r.push(70u8);
    r.push(114u8);
    r.push(97u8);
    r.push(109u8);
    r.push(101u8);
    r.push(32u8);
    r.push(110u8);
    r.push(117u8);
    r.push(109u8);
    r.push(32u8);
    r.push(99u8);
    r.push(104u8);
    r.push(97u8);
    r.push(110u8);
    r.push(103u8);
    r.push(101u8);
    proof {
        assert(r@ =~= lit_pat_frame_num());
    }
    r
}

/// The text `error while decoding MB`.
pub open spec fn lit_pat_decoding_mb() -> Seq<u8> {
    seq![101u8, 114u8, 114u8, 111u8, 114u8, 32u8, 119u8, 104u8, 105u8, 108u8, 101u8, 32u8, 100u8, 101u8, 99u8, 111u8, 100u8, 105u8, 110u8, 103u8, 32u8, 77u8, 66u8]
}

pub fn lit_pat_decoding_mb_vec() -> (r: Vec<u8>)
    ensures
        r@ == lit_pat_decoding_mb(),
{
    let mut r: Vec<u8> = Vec::new();
    r.push(101u8);
    r.push(114u8);
    r.push(114u8);
    r.push(111u8);
    r.push(114u8);
    r.push(32u8);
    r.push(119u8);
    r.push(104u8);
    r.push(105u8);
    r.push(108u8);
    r.push(101u8);
    r.push(32u8);
    r.push(100u8);
    r.push(101u8);
    r.push(99u8);
    r.push(111u8);
    r.push(100u8);
    r.push(105u8);
    r.push(110u8);
    r.push(103u8);
    r.push(32u8);
    r.push(77u8);
    r.push(66u8);
    proof {
        assert(r@ =~= lit_pat_decoding_mb());
    }
    r
}

/// The text `-skip_frame`.
pub open spec fn lit_arg_skip_frame() -> Seq<u8> {
    seq![45u8, 115u8, 107u8, 105u8, 112u8, 95u8, 102u8, 114u8, 97u8, 109u8, 101u8]
}

pub fn lit_arg_skip_frame_vec() -> (r: Vec<u8>)
    ensures
        r@ == lit_arg_skip_frame(),
{
    let mut r: Vec<u8> = Vec::new();
    r.push(45u8);
    r.push(115u8);
    r.push(107u8);
    r.push(105u8);
    r.push(112u8);
    r.push(95u8);
    r.push(102u8);
    r.push(114u8);
    r.push(97u8);
    r.push(109u8);
    r.push(101u8);
    proof {
        assert(r@ =~= lit_arg_skip_frame());
    }
    r
}

/// The text `nokey`.
pub open spec fn lit_arg_nokey() -> Seq<u8> {
    seq![110u8, 111u8, 107u8, 101u8, 121u8]
}

pub fn lit_arg_nokey_vec() -> (r: Vec<u8>)
    ensures
        r@ == lit_arg_nokey(),
{
    let mut r: Vec<u8> = Vec::new();
    r.push(110u8);
    r.push(111u8);
    r.push(107u8);
    r.push(101u8);
    r.push(121u8);
    proof {
        assert(r@ =~= lit_arg_nokey());
    }
    r
}

/// The text `-an`.
pub open spec fn lit_arg_an() -> Seq<u8> {
    seq![45u8, 97u8, 110u8]
}

pub fn lit_arg_an_vec() -> (r: Vec<u8>)
    ensures
        r@ == lit_arg_an(),
{
    let mut r: Vec<u8> = Vec::new();
    r.push(45u8);
    r.push(97u8);
    r.push(110u8);
    proof {
        assert(r@ =~= lit_arg_an());
    }
    r
}

/// The text `-vf`.
pub open spec fn lit_arg_vf() -> Seq<u8> {
    seq![45u8, 118u8, 102u8]
}

pub fn lit_arg_vf_vec() -> (r: Vec<u8>)
    ensures
        r@ == lit_arg_vf(),
{
    let mut r: Vec<u8> = Vec::new();
    r.push(45u8);
    r.push(118u8);
    r.push(102u8);
    proof {
        assert(r@ =~= lit_arg_vf());
    }
    r
}

/// The text `-f`.
pub open spec fn lit_arg_f() -> Seq<u8> {
    seq![45u8, 102u8]
}

pub fn lit_arg_f_vec() -> (r: Vec<u8>)
    ensures
        r@ == lit_arg_f(),
{
    let mut r: Vec<u8> = Vec::new();
    r.push(45u8);
    r.push(102u8);
    proof {
        assert(r@ =~= lit_arg_f());
    }
    r
}

/// The text `rawvideo`.
pub open spec fn lit_arg_rawvideo() -> Seq<u8> {
    seq![114u8, 97u8, 119u8, 118u8, 105u8, 100u8, 101u8, 111u8]
}

pub fn lit_arg_rawvideo_vec() -> (r: Vec<u8>)
    ensures
        r@ == lit_arg_rawvideo(),
{
    let mut r: Vec<u8> = Vec::new();
    r.push(114u8);
    r.push(97u8);
    r.push(119u8);
    r.push(118u8);
    r.push(105u8);
    r.push(100u8);
    r.push(101u8);
    r.push(111u8);
    proof {
        assert(r@ =~= lit_arg_rawvideo());
    }
    r
}

/// The text `-pix_fmt`.
pub open spec fn lit_arg_pix_fmt() -> Seq<u8> {
    seq![45u8, 112u8, 105u8, 120u8, 95u8, 102u8, 109u8, 116u8]
}

pub fn lit_arg_pix_fmt_vec() -> (r: Vec<u8>)
    ensures
        r@ == lit_arg_pix_fmt(),
{
    let mut r: Vec<u8> = Vec::new();
    r.push(45u8);
    r.push(112u8);
    r.push(105u8);
    r.push(120u8);
    r.push(95u8);
    r.push(102u8);
    r.push(109u8);
    r.push(116u8);
    proof {
        assert(r@ =~= lit_arg_pix_fmt());
    }
    r
}

/// The text `rgb24`.
pub open spec fn lit_arg_rgb24() -> Seq<u8> {
    seq![114u8, 103u8, 98u8, 50u8, 52u8]
}

pub fn lit_arg_rgb24_vec() -> (r: Vec<u8>)
    ensures
        r@ == lit_arg_rgb24(),
{
    let mut r: Vec<u8> = Vec::new();
    r.push(114u8);
    r.push(103u8);
    r.push(98u8);
    r.push(50u8);
    r.push(52u8);
    proof {
        assert(r@ =~= lit_arg_rgb24());
    }
    r
}

/// The text `-vsync`.
pub open spec fn lit_arg_vsync() -> Seq<u8> {
    seq![45u8, 118u8, 115u8, 121u8, 110u8, 99u8]
}

pub fn lit_arg_vsync_vec() -> (r: Vec<u8>)
    ensures
        r@ == lit_arg_vsync(),
{
    let mut r: Vec<u8> = Vec::new();
    r.push(45u8);
    r.push(118u8);
    r.push(115u8);
    r.push(121u8);
    r.push(110u8);
    r.push(99u8);
    proof {
        assert(r@ =~= lit_arg_vsync());
    }
    r
}

/// The text `vfr`.
pub open spec fn lit_arg_vfr() -> Seq<u8> {
    seq![118u8, 102u8, 114u8]
}

pub fn lit_arg_vfr_vec() -> (r: Vec<u8>)
    ensures
        r@ == lit_arg_vfr(),
{
    let mut r: Vec<u8> = Vec::new();
    r.push(118u8);
    r.push(102u8);
    r.push(114u8);
    proof {
        assert(r@ =~= lit_arg_vfr());
    }
    r
}

/// The text `scale=w=`.
pub open spec fn lit_scale_w() -> Seq<u8> {
    seq![115u8, 99u8, 97u8, 108u8, 101u8, 61u8, 119u8, 61u8]
}

pub fn lit_scale_w_vec() -> (r: Vec<u8>)
    ensures
        r@ == lit_scale_w(),
{
    let mut r: Vec<u8> = Vec::new();
    r.push(115u8);
    r.push(99u8);
    r.push(97u8);
    r.push(108u8);
    r.push(101u8);
    r.push(61u8);
    r.push(119u8);
    r.push(61u8);
    proof {
        assert(r@ =~= lit_scale_w());
    }
    r
}

/// The text `:h=`.
pub open spec fn lit_scale_h() -> Seq<u8> {
    seq![58u8, 104u8, 61u8]
}

pub fn lit_scale_h_vec() -> (r: Vec<u8>)
    ensures
        r@ == lit_scale_h(),
{
    let mut r: Vec<u8> = Vec::new();
    r.push(58u8);
    r.push(104u8);
    r.push(61u8);
    proof {
        assert(r@ =~= lit_scale_h());
    }
    r
}

/// The text `:force_original_aspect_ratio=decrease`.
pub open spec fn lit_scale_tail() -> Seq<u8> {
    seq![58u8, 102u8, 111u8, 114u8, 99u8, 101u8, 95u8, 111u8, 114u8, 105u8, 103u8, 105u8, 110u8, 97u8, 108u8, 95u8, 97u8, 115u8, 112u8, 101u8, 99u8, 116u8, 95u8, 114u8, 97u8, 116u8, 105u8, 111u8, 61u8, 100u8, 101u8, 99u8, 114u8, 101u8, 97u8, 115u8, 101u8]
}

pub fn lit_scale_tail_vec() -> (r: Vec<u8>)
    ensures
        r@ == lit_scale_tail(),
{
    let mut r: Vec<u8> = Vec::new();
    r.push(58u8);
    r.push(102u8);
    r.push(111u8);
    r.push(114u8);
    r.push(99u8);
    r.push(101u8);
    r.push(95u8);
    r.push(111u8);
    r.push(114u8);
    r.push(105u8);
    r.push(103u8);
    r.push(105u8);
    r.push(110u8);
    r.push(97u8);
    r.push(108u8);
    r.push(95u8);
    r.push(97u8);
    r.push(115u8);
    r.push(112u8);
    r.push(101u8);
    r.push(99u8);
    r.push(116u8);
    r.push(95u8);
    r.push(114u8);
    r.push(97u8);
    r.push(116u8);
    r.push(105u8);
    r.push(111u8);
    r.push(61u8);
    r.push(100u8);
    r.push(101u8);
    r.push(99u8);
    r.push(114u8);
    r.push(101u8);
    r.push(97u8);
    r.push(115u8);
    r.push(101u8);
    proof {
        assert(r@ =~= lit_scale_tail());
    }
    r
}

} // verus!
