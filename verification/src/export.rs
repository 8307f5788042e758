//! Per-frame export records: the persisted outcome of one frame of one
//! media file, either a detection result or a per-file error.

use vstd::prelude::*;
use crate::utils::FileItem;
use crate::utils::clone_bytes;

verus! {

/// Bytes allowed in the textual form of a detection coordinate or score:
/// digits, sign, dot and exponent marks.
pub open spec fn is_num_byte(b: u8) -> bool {
    (48 <= b <= 57) || b == 46 || b == 45 || b == 43 || b == 101 || b == 69
}

/// A well-formed numeric cell: nonempty and made of numeric bytes only.
pub open spec fn wf_num_token(s: Seq<u8>) -> bool {
    s.len() > 0 && forall|i: int| 0 <= i < s.len() ==> is_num_byte(s[i])
}

/// A normalized detection rectangle. The coordinates and the score are kept
/// in the textual decimal form in which they cross the wire, so the artifact
/// carries them unchanged; the class is a non-negative index.
pub struct Bbox {
    pub x1: Vec<u8>,
    pub y1: Vec<u8>,
    pub x2: Vec<u8>,
    pub y2: Vec<u8>,
    pub class: usize,
    pub score: Vec<u8>,
}

/// The mathematical value of a `Bbox`.
pub struct BboxV {
    pub x1: Seq<u8>,
    pub y1: Seq<u8>,
    pub x2: Seq<u8>,
    pub y2: Seq<u8>,
    pub class: nat,
    pub score: Seq<u8>,
}

impl View for Bbox {
    type V = BboxV;

    open spec fn view(&self) -> BboxV {
        BboxV {
            x1: self.x1@,
            y1: self.y1@,
            x2: self.x2@,
            y2: self.y2@,
            class: self.class as nat,
            score: self.score@,
        }
    }
}

/// All numeric cells of the rectangle are well-formed tokens and the class
/// index fits a machine word.
pub open spec fn wf_bbox(b: BboxV) -> bool {
    wf_num_token(b.x1) && wf_num_token(b.y1) && wf_num_token(b.x2) && wf_num_token(b.y2)
        && wf_num_token(b.score) && b.class <= usize::MAX
}

impl Clone for Bbox {
    fn clone(&self) -> (r: Self)
        ensures
            r@ == self@,
    {
        Bbox {
            x1: clone_bytes(&self.x1),
            y1: clone_bytes(&self.y1),
            x2: clone_bytes(&self.x2),
            y2: clone_bytes(&self.y2),
            class: self.class,
            score: clone_bytes(&self.score),
        }
    }
}

/// The persisted per-frame record.
pub struct ExportFrame {
    pub file: Vec<u8>,
    pub frame_index: usize,
    pub shoot_time: Option<Vec<u8>>,
    pub total_frames: usize,
    pub bboxes: Option<Vec<Bbox>>,
    pub label: Option<Vec<u8>>,
    pub error: Option<Vec<u8>>,
}

/// The mathematical value of an `ExportFrame`.
pub struct ExportFrameV {
    pub file: Seq<u8>,
    pub frame_index: nat,
    pub shoot_time: Option<Seq<u8>>,
    pub total_frames: nat,
    pub bboxes: Option<Seq<BboxV>>,
    pub label: Option<Seq<u8>>,
    pub error: Option<Seq<u8>>,
}

impl View for ExportFrame {
    type V = ExportFrameV;

    open spec fn view(&self) -> ExportFrameV {
        ExportFrameV {
            file: self.file@,
            frame_index: self.frame_index as nat,
            shoot_time: match self.shoot_time {
                Some(s) => Some(s@),
                None => None,
            },
            total_frames: self.total_frames as nat,
            bboxes: match self.bboxes {
                Some(bs) => Some(bs@.map_values(|b: Bbox| b@)),
                None => None,
            },
            label: match self.label {
                Some(s) => Some(s@),
                None => None,
            },
            error: match self.error {
                Some(s) => Some(s@),
                None => None,
            },
        }
    }
}

/// The mathematical values of a sequence of records.
pub open spec fn frames_view(s: Seq<ExportFrame>) -> Seq<ExportFrameV> {
    s.map_values(|f: ExportFrame| f@)
}

/// The numeric cells of every rectangle of the record are well-formed and
/// the frame counters fit a machine word.
pub open spec fn wf_frame(f: ExportFrameV) -> bool {
    &&& match f.bboxes {
        Some(bs) => forall|i: int| 0 <= i < bs.len() ==> wf_bbox(#[trigger] bs[i]),
        None => true,
    }
    &&& f.frame_index <= usize::MAX
    &&& f.total_frames <= usize::MAX
}

/// Every record of the sequence is well-formed.
pub open spec fn wf_frames(s: Seq<ExportFrameV>) -> bool {
    forall|i: int| 0 <= i < s.len() ==> wf_frame(s[i])
}

/// A finalized record holds exactly one of a detection result and an error;
/// a detection result always comes with a label, and an error record carries
/// no frame position.
pub open spec fn finalized_frame(f: ExportFrameV) -> bool {
    &&& (f.bboxes is Some <==> f.error is None)
    &&& (f.bboxes is Some ==> f.label is Some)
    &&& (f.error is Some ==> f.frame_index == 0 && f.total_frames == 0)
}

pub fn clone_opt_bytes(v: &Option<Vec<u8>>) -> (r: Option<Vec<u8>>)
    ensures
        match (v, &r) {
            (Some(a), Some(b)) => a@ == b@,
            (None, None) => true,
            _ => false,
        },
{
    match v {
        Some(a) => Some(clone_bytes(a)),
        None => None,
    }
}

pub fn clone_bboxes(v: &Vec<Bbox>) -> (r: Vec<Bbox>)
    ensures
        r@.map_values(|b: Bbox| b@) == v@.map_values(|b: Bbox| b@),
{
    let mut r: Vec<Bbox> = Vec::new();
    let mut i: usize = 0;
    while i < v.len()
        invariant
            i <= v@.len(),
            r@.len() == i,
            forall|j: int| 0 <= j < i ==> r@[j]@ == v@[j]@,
        decreases v@.len() - i,
    {
        r.push(v[i].clone());
        i = i + 1;
    }
    proof {
        assert(r@.map_values(|b: Bbox| b@) =~= v@.map_values(|b: Bbox| b@));
    }
    r
}

impl Clone for ExportFrame {
    fn clone(&self) -> (r: Self)
        ensures
            r@ == self@,
    {
        ExportFrame {
            file: clone_bytes(&self.file),
            frame_index: self.frame_index,
            shoot_time: clone_opt_bytes(&self.shoot_time),
            total_frames: self.total_frames,
            bboxes: match &self.bboxes {
                Some(bs) => Some(clone_bboxes(bs)),
                None => None,
            },
            label: clone_opt_bytes(&self.label),
            error: clone_opt_bytes(&self.error),
        }
    }
}

impl ExportFrame {
    /// The record first held for a frame while its detection is in flight:
    /// position and time are known, the result is not.
    pub fn pending(
        file: Vec<u8>,
        frame_index: usize,
        shoot_time: Option<Vec<u8>>,
        total_frames: usize,
    ) -> (r: Self)
        ensures
            r@ == (ExportFrameV {
                file: file@,
                frame_index: frame_index as nat,
                shoot_time: match shoot_time {
                    Some(s) => Some(s@),
                    None => None,
                },
                total_frames: total_frames as nat,
                bboxes: None,
                label: None,
                error: None,
            }),
    {
        ExportFrame {
            file,
            frame_index,
            shoot_time,
            total_frames,
            bboxes: None,
            label: None,
            error: None,
        }
    }

    /// The finalized record of a file whose decode or encode failed.
    pub fn errored(file: &FileItem, error: Vec<u8>) -> (r: Self)
        ensures
            r@.file == file@.file_path,
            r@.frame_index == 0,
            r@.shoot_time is None,
            r@.total_frames == 0,
            r@.bboxes is None,
            r@.label is None,
            r@.error == Some(error@),
            finalized_frame(r@),
    {
        ExportFrame {
            file: clone_bytes(&file.file_path),
            frame_index: 0,
            shoot_time: None,
            total_frames: 0,
            bboxes: None,
            label: None,
            error: Some(error),
        }
    }

    /// Merge an inbound detection into a pending record, finalizing it.
    pub fn completed(self, label: Vec<u8>, bboxes: Vec<Bbox>) -> (r: Self)
        requires
            self@.bboxes is None,
            self@.error is None,
        ensures
            r@.file == self@.file,
            r@.frame_index == self@.frame_index,
            r@.shoot_time == self@.shoot_time,
            r@.total_frames == self@.total_frames,
            r@.bboxes == Some(bboxes@.map_values(|b: Bbox| b@)),
            r@.label == Some(label@),
            r@.error is None,
            finalized_frame(r@),
    {
        ExportFrame {
            file: self.file,
            frame_index: self.frame_index,
            shoot_time: self.shoot_time,
            total_frames: self.total_frames,
            bboxes: Some(bboxes),
            label: Some(label),
            error: None,
        }
    }
}


// ---------------------------------------------------------------------------
// Well-formedness checks callers can run.
/// Whether every byte of `t` may appear in a numeric cell.
pub fn check_num_token(t: &Vec<u8>) -> (r: bool)
    ensures
        r == wf_num_token(t@),
{
    if t.len() == 0 {
        return false;
    }
    let mut i: usize = 0;
    while i < t.len()
        invariant
            i <= t@.len(),
            forall|k: int| 0 <= k < i ==> is_num_byte(#[trigger] t@[k]),
        decreases t@.len() - i,
    {
        if !crate::json::num_byte(t[i]) {
            return false;
        }
        i = i + 1;
    }
    true
}

/// Whether the rectangle is well-formed.
pub fn check_bbox(b: &Bbox) -> (r: bool)
    ensures
        r == wf_bbox(b@),
{
    check_num_token(&b.x1) && check_num_token(&b.y1) && check_num_token(&b.x2) && check_num_token(
        &b.y2,
    ) && check_num_token(&b.score)
}

/// Whether every rectangle of the record is well-formed.
pub fn check_frame(f: &ExportFrame) -> (r: bool)
    ensures
        r == wf_frame(f@),
{
    match &f.bboxes {
        Some(bs) => {
            let mut i: usize = 0;
            while i < bs.len()
                invariant
                    i <= bs@.len(),
                    f@.bboxes == Some(bs@.map_values(|b: Bbox| b@)),
                    forall|k: int| 0 <= k < i ==> wf_bbox(#[trigger] bs@[k]@),
                decreases bs@.len() - i,
            {
                if !check_bbox(&bs[i]) {
                    proof {
                        let views = bs@.map_values(|b: Bbox| b@);
                        assert(f@.bboxes == Some(views));
                        assert(views[i as int] == bs@[i as int]@);
                        assert(!wf_bbox(views[i as int]));
                        if wf_frame(f@) {
                            let vs = f@.bboxes->Some_0;
                            assert(vs == views);
                            assert(wf_bbox(vs[i as int]));
                        }
                    }
                    return false;
                }
                i = i + 1;
            }
            proof {
                assert(f@.bboxes == Some(bs@.map_values(|b: Bbox| b@)));
                assert(forall|k: int|
                    0 <= k < bs@.len() ==> bs@.map_values(|b: Bbox| b@)[k] == bs@[k]@);
            }
            true
        },
        None => true,
    }
}

/// Whether every record of the sequence is well-formed.
pub fn check_frames(frames: &Vec<ExportFrame>) -> (r: bool)
    ensures
        r == wf_frames(frames_view(frames@)),
{
    let mut i: usize = 0;
    while i < frames.len()
        invariant
            i <= frames@.len(),
            forall|k: int| 0 <= k < i ==> wf_frame(#[trigger] frames@[k]@),
        decreases frames@.len() - i,
    {
        if !check_frame(&frames[i]) {
            proof {
                assert(frames_view(frames@)[i as int] == frames@[i as int]@);
            }
            return false;
        }
        i = i + 1;
    }
    proof {
        assert(forall|k: int|
            0 <= k < frames_view(frames@).len() ==> frames_view(frames@)[k] == frames@[k]@);
    }
    true
}

// ---------------------------------------------------------------------------
// The artifact in either format.
/// The artifact text for a record sequence in the given format.
pub open spec fn artifact_of(format: crate::ExportFormat, fs: Seq<ExportFrameV>) -> Seq<u8> {
    match format {
        crate::ExportFormat::Json => crate::json::json_doc(fs),
        crate::ExportFormat::Csv => crate::csv::csv_doc(fs),
    }
}

/// The artifact's file name under the input root; the walker prunes
/// exactly these names so a run never re-reads its own output.
pub fn result_filename(format: crate::ExportFormat) -> (r: Vec<u8>)
    ensures
        r@ == match format {
            crate::ExportFormat::Json => crate::utils::lit_result_json(),
            crate::ExportFormat::Csv => crate::utils::lit_result_csv(),
        },
{
    match format {
        crate::ExportFormat::Json => crate::utils::lit_result_json_vec(),
        crate::ExportFormat::Csv => crate::utils::lit_result_csv_vec(),
    }
}

/// Serialize records in the given format.
pub fn write_artifact(format: crate::ExportFormat, frames: &Vec<ExportFrame>) -> (r: Vec<u8>)
    ensures
        r@ == artifact_of(format, frames_view(frames@)),
{
    match format {
        crate::ExportFormat::Json => crate::json::write_json(frames),
        crate::ExportFormat::Csv => crate::csv::write_csv(frames),
    }
}

// ---------------------------------------------------------------------------
// Duplicate suppression on finalize.
/// Whether a record with the same file and frame position occurs in `fs`.
pub open spec fn key_in(fs: Seq<ExportFrameV>, f: ExportFrameV) -> bool {
    exists|k: int|
        0 <= k < fs.len() && (#[trigger] fs[k]).file == f.file && fs[k].frame_index
            == f.frame_index
}

/// Drop every record whose file and frame position already occur earlier in
/// the sequence; the first occurrence and the order are kept.
pub open spec fn dedup_frames(fs: Seq<ExportFrameV>) -> Seq<ExportFrameV>
    decreases fs.len(),
{
    if fs.len() == 0 {
        Seq::empty()
    } else if key_in(fs.drop_last(), fs.last()) {
        dedup_frames(fs.drop_last())
    } else {
        dedup_frames(fs.drop_last()).push(fs.last())
    }
}

/// Every deduplicated record is one of the original records.
pub proof fn lemma_dedup_members(fs: Seq<ExportFrameV>)
    ensures
        forall|j: int|
            0 <= j < dedup_frames(fs).len() ==> fs.contains(#[trigger] dedup_frames(fs)[j]),
    decreases fs.len(),
{
    if fs.len() == 0 {
    } else {
        lemma_dedup_members(fs.drop_last());
        assert forall|j: int|
            0 <= j < dedup_frames(fs).len() implies fs.contains(#[trigger] dedup_frames(fs)[j]) by {
            let d = dedup_frames(fs);
            let dp = dedup_frames(fs.drop_last());
            if j < dp.len() {
                assert(dp[j] == d[j]);
                let k = choose|k: int| 0 <= k < fs.drop_last().len() && fs.drop_last()[k] == dp[j];
                assert(fs[k] == dp[j]);
            } else {
                assert(d[j] == fs.last());
                assert(fs[fs.len() - 1] == fs.last());
            }
        }
    }
}

/// Duplicate suppression keeps records well-formed.
pub proof fn lemma_dedup_wf(fs: Seq<ExportFrameV>)
    requires
        wf_frames(fs),
    ensures
        wf_frames(dedup_frames(fs)),
{
    lemma_dedup_members(fs);
    assert forall|j: int| 0 <= j < dedup_frames(fs).len() implies wf_frame(
        #[trigger] dedup_frames(fs)[j],
    ) by {
        let k = choose|k: int| 0 <= k < fs.len() && fs[k] == dedup_frames(fs)[j];
        assert(wf_frame(fs[k]));
    }
}

fn same_key(a: &ExportFrame, b: &ExportFrame) -> (r: bool)
    ensures
        r == (a@.file == b@.file && a@.frame_index == b@.frame_index),
{
    crate::utils::bytes_eq(&a.file, &b.file) && a.frame_index == b.frame_index
}

fn key_present(frames: &Vec<ExportFrame>, upto: usize, f: &ExportFrame) -> (r: bool)
    requires
        upto <= frames@.len(),
    ensures
        r == key_in(frames_view(frames@).take(upto as int), f@),
{
    let ghost views = frames_view(frames@).take(upto as int);
    let mut j: usize = 0;
    while j < upto
        invariant
            j <= upto <= frames@.len(),
            views == frames_view(frames@).take(upto as int),
            forall|k: int|
                0 <= k < j ==> !((#[trigger] views[k]).file == f@.file && views[k].frame_index
                    == f@.frame_index),
        decreases upto - j,
    {
        if same_key(&frames[j], f) {
            proof {
                assert(views[j as int] == frames@[j as int]@);
            }
            return true;
        }
        proof {
            assert(views[j as int] == frames@[j as int]@);
        }
        j = j + 1;
    }
    false
}

/// Keep the first record for each file and frame position, in order.
pub fn dedup_records(frames: &Vec<ExportFrame>) -> (r: Vec<ExportFrame>)
    ensures
        frames_view(r@) == dedup_frames(frames_view(frames@)),
{
    let ghost views = frames_view(frames@);
    let mut out: Vec<ExportFrame> = Vec::new();
    let mut i: usize = 0;
    proof {
        assert(views.take(0) =~= Seq::<ExportFrameV>::empty());
        assert(frames_view(out@) =~= Seq::<ExportFrameV>::empty());
    }
    while i < frames.len()
        invariant
            i <= frames@.len(),
            views == frames_view(frames@),
            frames_view(out@) == dedup_frames(views.take(i as int)),
        decreases frames@.len() - i,
    {
        let ghost old_out = frames_view(out@);
        let dup = key_present(frames, i, &frames[i]);
        if !dup {
            out.push(frames[i].clone());
            proof {
                assert(frames_view(out@) =~= old_out.push(out@.last()@));
            }
        }
        proof {
            let t1 = views.take(i as int + 1);
            assert(t1.drop_last() =~= views.take(i as int));
            assert(t1.last() == frames@[i as int]@);
            assert(views.take(i as int) =~= frames_view(frames@).take(i as int));
        }
        i = i + 1;
    }
    proof {
        assert(views.take(views.len() as int) =~= views);
    }
    out
}

// ---------------------------------------------------------------------------
// The checkpointing exporter.
/// The exporter: the record accumulator, the checkpoint interval, and the
/// count of records taken in since the last checkpoint write.
pub struct Exporter {
    pub records: Vec<ExportFrame>,
    pub since_checkpoint: usize,
    pub checkpoint: usize,
    pub format: crate::ExportFormat,
    pub finished: bool,
}

impl Exporter {
    /// The exporter's internal invariant: a positive interval, a counter
    /// below it, and only well-formed records taken in.
    pub open spec fn wf(self) -> bool {
        &&& self.checkpoint > 0
        &&& self.since_checkpoint < self.checkpoint
        &&& wf_frames(frames_view(self.records@))
    }

    pub fn new(checkpoint: usize, format: crate::ExportFormat) -> (r: Self)
        requires
            checkpoint > 0,
        ensures
            r.wf(),
            r.records@.len() == 0,
            r.since_checkpoint == 0,
            r.checkpoint == checkpoint,
            r.format == format,
            !r.finished,
    {
        Exporter { records: Vec::new(), since_checkpoint: 0, checkpoint, format, finished: false }
    }

    /// Seed the accumulator with the records of a prior artifact, before any
    /// new record arrives.
    pub fn seed(&mut self, frames: Vec<ExportFrame>)
        requires
            old(self).wf(),
            !old(self).finished,
            old(self).records@.len() == 0,
            wf_frames(frames_view(frames@)),
        ensures
            final(self).wf(),
            final(self).records@ == frames@,
            final(self).since_checkpoint == old(self).since_checkpoint,
            final(self).checkpoint == old(self).checkpoint,
            final(self).format == old(self).format,
            !final(self).finished,
    {
        self.records = frames;
    }

    /// Take in one record. Every `checkpoint` records, the whole accumulator
    /// is serialized and handed back to be written to disk: the checkpoint
    /// artifact holds every record received so far.
    pub fn push(&mut self, frame: ExportFrame) -> (r: Option<Vec<u8>>)
        requires
            old(self).wf(),
            !old(self).finished,
            wf_frame(frame@),
        ensures
            final(self).wf(),
            final(self).records@ == old(self).records@.push(frame),
            final(self).checkpoint == old(self).checkpoint,
            final(self).format == old(self).format,
            !final(self).finished,
            r is Some <==> old(self).since_checkpoint + 1 == old(self).checkpoint,
            final(self).since_checkpoint == if old(self).since_checkpoint + 1
                == old(self).checkpoint {
                0int
            } else {
                old(self).since_checkpoint + 1
            },
            match r {
                Some(a) => a@ == artifact_of(
                    final(self).format,
                    frames_view(final(self).records@),
                ),
                None => true,
            },
    {
        let ghost old_views = frames_view(self.records@);
        let ghost fv = frame@;
        self.records.push(frame);
        proof {
            let views = frames_view(self.records@);
            assert(views =~= old_views.push(fv));
            assert forall|k: int| 0 <= k < views.len() implies wf_frame(#[trigger] views[k]) by {
                if k < old_views.len() {
                    assert(wf_frame(old_views[k]));
                }
            }
        }
        if self.since_checkpoint + 1 == self.checkpoint {
            self.since_checkpoint = 0;
            Some(write_artifact(self.format, &self.records))
        } else {
            self.since_checkpoint = self.since_checkpoint + 1;
            None
        }
    }

    /// Finalize: serialize the accumulator with duplicate positions dropped,
    /// and mark the exporter finished.
    pub fn finalize(&mut self) -> (r: Vec<u8>)
        requires
            old(self).wf(),
            !old(self).finished,
        ensures
            final(self).wf(),
            final(self).finished,
            final(self).records@ == old(self).records@,
            r@ == artifact_of(
                old(self).format,
                dedup_frames(frames_view(old(self).records@)),
            ),
    {
        let unique = dedup_records(&self.records);
        proof {
            lemma_dedup_wf(frames_view(self.records@));
        }
        let out = write_artifact(self.format, &unique);
        self.finished = true;
        out
    }
}


// ---------------------------------------------------------------------------
// Resuming from a prior artifact.
/// Why a prior artifact cannot be used.
#[derive(Clone, Copy, PartialEq, Eq, Structural, Debug)]
pub enum CheckpointError {
    Missing,
    NotAFile,
    BadExtension,
    Unparsable,
}

/// `p` ends with the bytes of `suffix`.
pub open spec fn ends_with(p: Seq<u8>, suffix: Seq<u8>) -> bool {
    p.len() >= suffix.len() && p.skip(p.len() - suffix.len()) == suffix
}

/// The bytes of `.json`.
pub open spec fn ext_json() -> Seq<u8> {
    seq![46u8, 106u8, 115u8, 111u8, 110u8]
}

/// The bytes of `.csv`.
pub open spec fn ext_csv() -> Seq<u8> {
    seq![46u8, 99u8, 115u8, 118u8]
}

fn ext_json_vec() -> (r: Vec<u8>)
    ensures
        r@ == ext_json(),
{
    let mut r: Vec<u8> = Vec::new();
    r.push(46u8);
    r.push(106u8);
    r.push(115u8);
    r.push(111u8);
    r.push(110u8);
    proof {
        assert(r@ =~= ext_json());
    }
    r
}

fn ext_csv_vec() -> (r: Vec<u8>)
    ensures
        r@ == ext_csv(),
{
    let mut r: Vec<u8> = Vec::new();
    r.push(46u8);
    r.push(99u8);
    r.push(115u8);
    r.push(118u8);
    proof {
        assert(r@ =~= ext_csv());
    }
    r
}

/// Whether `p` ends with `suffix`.
pub fn bytes_ends_with(p: &Vec<u8>, suffix: &Vec<u8>) -> (r: bool)
    ensures
        r == ends_with(p@, suffix@),
{
    if p.len() < suffix.len() {
        return false;
    }
    let off = p.len() - suffix.len();
    let mut k: usize = 0;
    while k < suffix.len()
        invariant
            p@.len() >= suffix@.len(),
            p@.len() <= usize::MAX,
            off == p@.len() - suffix@.len(),
            k <= suffix@.len(),
            forall|m: int| 0 <= m < k ==> p@[off + m] == suffix@[m],
        decreases suffix@.len() - k,
    {
        if p[off + k] != suffix[k] {
            proof {
                assert(p@.skip(off as int)[k as int] == p@[off + k]);
            }
            return false;
        }
        k = k + 1;
    }
    proof {
        assert(p@.skip(off as int) =~= suffix@);
    }
    true
}

/// How many records of `fs` belong to the file at `p`.
pub open spec fn count_for(fs: Seq<ExportFrameV>, p: Seq<u8>) -> nat
    decreases fs.len(),
{
    if fs.len() == 0 {
        0
    } else {
        count_for(fs.drop_last(), p) + if fs.last().file == p {
            1nat
        } else {
            0nat
        }
    }
}

/// The frame total reported by the first record of the file at `p`.
pub open spec fn first_total(fs: Seq<ExportFrameV>, p: Seq<u8>) -> nat
    decreases fs.len(),
{
    if fs.len() == 0 {
        0
    } else if fs[0].file == p {
        fs[0].total_frames
    } else {
        first_total(fs.skip(1), p)
    }
}

/// A file is complete in a prior artifact when it has at least one record
/// and exactly as many records as its reported frame total.
pub open spec fn file_complete(fs: Seq<ExportFrameV>, p: Seq<u8>) -> bool {
    count_for(fs, p) >= 1 && count_for(fs, p) == first_total(fs, p)
}

/// The items of `work` whose files are not complete in the prior records.
pub open spec fn remaining_work(work: Seq<crate::utils::FileItemV>, fs: Seq<ExportFrameV>) -> Seq<
    crate::utils::FileItemV,
>
    decreases work.len(),
{
    if work.len() == 0 {
        Seq::empty()
    } else if file_complete(fs, work.last().file_path) {
        remaining_work(work.drop_last(), fs)
    } else {
        remaining_work(work.drop_last(), fs).push(work.last())
    }
}

/// The mathematical values of a sequence of work items.
pub open spec fn items_view(s: Seq<FileItem>) -> Seq<crate::utils::FileItemV> {
    s.map_values(|it: FileItem| it@)
}

fn count_records_for(frames: &Vec<ExportFrame>, p: &Vec<u8>) -> (r: usize)
    ensures
        r == count_for(frames_view(frames@), p@),
{
    let ghost views = frames_view(frames@);
    let mut count: usize = 0;
    let mut i: usize = 0;
    while i < frames.len()
        invariant
            i <= frames@.len(),
            views == frames_view(frames@),
            count <= i,
            count == count_for(views.take(i as int), p@),
        decreases frames@.len() - i,
    {
        let hit = crate::utils::bytes_eq(&frames[i].file, p);
        if hit {
            count = count + 1;
        }
        proof {
            let t1 = views.take(i as int + 1);
            assert(t1.drop_last() =~= views.take(i as int));
            assert(t1.last() == frames@[i as int]@);
        }
        i = i + 1;
    }
    proof {
        assert(views.take(views.len() as int) =~= views);
    }
    count
}

fn first_total_for(frames: &Vec<ExportFrame>, p: &Vec<u8>) -> (r: usize)
    ensures
        r == first_total(frames_view(frames@), p@),
{
    let ghost views = frames_view(frames@);
    let mut i: usize = 0;
    proof {
        assert(views.skip(0) =~= views);
    }
    while i < frames.len()
        invariant
            i <= frames@.len(),
            views == frames_view(frames@),
            first_total(views, p@) == first_total(views.skip(i as int), p@),
        decreases frames@.len() - i,
    {
        let hit = crate::utils::bytes_eq(&frames[i].file, p);
        proof {
            assert(views.skip(i as int)[0] == frames@[i as int]@);
            assert(views.skip(i as int).skip(1) =~= views.skip(i as int + 1));
        }
        if hit {
            return frames[i].total_frames;
        }
        i = i + 1;
    }
    proof {
        assert(views.skip(views.len() as int) =~= Seq::<ExportFrameV>::empty());
    }
    0
}

/// Whether the file at `p` is complete in the prior records.
pub fn check_file_complete(frames: &Vec<ExportFrame>, p: &Vec<u8>) -> (r: bool)
    ensures
        r == file_complete(frames_view(frames@), p@),
{
    let count = count_records_for(frames, p);
    if count == 0 {
        return false;
    }
    let total = first_total_for(frames, p);
    count == total
}

/// Read a prior artifact and shrink the work set: records of the prior run
/// seed the accumulator, and files already complete in it drop out of the
/// work set. The flags say what the file system reported about the path.
pub fn resume_from_checkpoint(
    checkpoint_path: &Vec<u8>,
    exists: bool,
    is_file: bool,
    content: &Vec<u8>,
    work: &Vec<FileItem>,
) -> (r: Result<(Vec<FileItem>, Vec<ExportFrame>), CheckpointError>)
    ensures
        match r {
            Ok(t) => {
                &&& exists
                &&& is_file
                &&& (ends_with(checkpoint_path@, ext_json()) || ends_with(
                    checkpoint_path@,
                    ext_csv(),
                ))
                &&& if ends_with(checkpoint_path@, ext_json()) {
                    crate::json::sp_doc(content@) == Some(frames_view(t.1@))
                } else {
                    crate::csv::sp_csv_doc(content@) == Some(frames_view(t.1@))
                }
                &&& items_view(t.0@) == remaining_work(items_view(work@), frames_view(t.1@))
                &&& wf_frames(frames_view(t.1@))
            },
            Err(e) => match e {
                CheckpointError::Missing => !exists,
                CheckpointError::NotAFile => exists && !is_file,
                CheckpointError::BadExtension => exists && is_file && !ends_with(
                    checkpoint_path@,
                    ext_json(),
                ) && !ends_with(checkpoint_path@, ext_csv()),
                CheckpointError::Unparsable => exists && is_file && (if ends_with(
                    checkpoint_path@,
                    ext_json(),
                ) {
                    crate::json::sp_doc(content@) is None
                } else {
                    ends_with(checkpoint_path@, ext_csv()) && crate::csv::sp_csv_doc(content@)
                        is None
                }),
            },
        },
{
    if !exists {
        return Err(CheckpointError::Missing);
    }
    if !is_file {
        return Err(CheckpointError::NotAFile);
    }
    let ej = ext_json_vec();
    let ec = ext_csv_vec();
    let is_json = bytes_ends_with(checkpoint_path, &ej);
    let is_csv = bytes_ends_with(checkpoint_path, &ec);
    if !is_json && !is_csv {
        return Err(CheckpointError::BadExtension);
    }
    let parsed: Option<Vec<ExportFrame>> = if is_json {
        crate::json::parse_export_json(content)
    } else {
        crate::csv::parse_export_csv(content)
    };
    let frames = match parsed {
        Some(f) => f,
        None => {
            return Err(CheckpointError::Unparsable);
        },
    };
    proof {
        if ends_with(checkpoint_path@, ext_json()) {
            crate::json::lemma_parsed_json_wf(content@);
        } else {
            crate::csv::lemma_parsed_csv_wf(content@);
        }
    }
    let ghost fs = frames_view(frames@);
    let ghost wviews = items_view(work@);
    let mut keep: Vec<FileItem> = Vec::new();
    let mut i: usize = 0;
    proof {
        assert(wviews.take(0) =~= Seq::<crate::utils::FileItemV>::empty());
        assert(items_view(keep@) =~= Seq::<crate::utils::FileItemV>::empty());
    }
    while i < work.len()
        invariant
            i <= work@.len(),
            fs == frames_view(frames@),
            wviews == items_view(work@),
            items_view(keep@) == remaining_work(wviews.take(i as int), fs),
        decreases work@.len() - i,
    {
        let ghost old_keep = items_view(keep@);
        let complete = check_file_complete(&frames, &work[i].file_path);
        if !complete {
            keep.push(work[i].clone());
            proof {
                assert(items_view(keep@) =~= old_keep.push(keep@.last()@));
            }
        }
        proof {
            let t1 = wviews.take(i as int + 1);
            assert(t1.drop_last() =~= wviews.take(i as int));
            assert(t1.last() == work@[i as int]@);
        }
        i = i + 1;
    }
    proof {
        assert(wviews.take(wviews.len() as int) =~= wviews);
    }
    Ok((keep, frames))
}

/// Resume completeness: an item survives the resume exactly when its file
/// is not complete in the prior records.
pub proof fn lemma_resume_completeness(work: Seq<crate::utils::FileItemV>, fs: Seq<ExportFrameV>)
    ensures
        forall|it: crate::utils::FileItemV|
            #[trigger] remaining_work(work, fs).contains(it) <==> work.contains(it)
                && !file_complete(fs, it.file_path),
    decreases work.len(),
{
    if work.len() == 0 {
        assert forall|it: crate::utils::FileItemV| #[trigger]
            remaining_work(work, fs).contains(it) <==> work.contains(it) && !file_complete(
            fs,
            it.file_path,
        ) by {
            assert(!remaining_work(work, fs).contains(it));
            assert(!work.contains(it));
        }
    } else {
        lemma_resume_completeness(work.drop_last(), fs);
        let prefix = work.drop_last();
        let last = work.last();
        assert forall|it: crate::utils::FileItemV| #[trigger]
            remaining_work(work, fs).contains(it) <==> work.contains(it) && !file_complete(
            fs,
            it.file_path,
        ) by {
            let r = remaining_work(work, fs);
            let rp = remaining_work(prefix, fs);
            if file_complete(fs, last.file_path) {
                assert(r == rp);
                if rp.contains(it) {
                    assert(prefix.contains(it));
                    let k = choose|k: int| 0 <= k < prefix.len() && prefix[k] == it;
                    assert(work[k] == it);
                    assert(work.contains(it));
                } else if work.contains(it) && !file_complete(fs, it.file_path) {
                    let k = choose|k: int| 0 <= k < work.len() && work[k] == it;
                    assert(k < work.len());
                    if k == work.len() - 1 {
                        assert(it == last);
                        assert(false);
                    } else {
                        assert(prefix[k] == it);
                        assert(prefix.contains(it));
                        assert(rp.contains(it));
                    }
                }
            } else {
                assert(r == rp.push(last));
                if r.contains(it) {
                    let k = choose|k: int| 0 <= k < r.len() && r[k] == it;
                    if k == r.len() - 1 {
                        assert(it == last);
                        assert(work[work.len() - 1] == it);
                        assert(work.contains(it));
                    } else {
                        assert(rp[k] == it);
                        assert(rp.contains(it));
                        assert(prefix.contains(it));
                        let m = choose|m: int| 0 <= m < prefix.len() && prefix[m] == it;
                        assert(work[m] == it);
                        assert(work.contains(it));
                    }
                } else if work.contains(it) && !file_complete(fs, it.file_path) {
                    let k = choose|k: int| 0 <= k < work.len() && work[k] == it;
                    if k == work.len() - 1 {
                        assert(it == last);
                        assert(r[r.len() - 1] == last);
                        assert(r.contains(it));
                        assert(false);
                    } else {
                        assert(prefix[k] == it);
                        assert(prefix.contains(it));
                        assert(rp.contains(it));
                        let m = choose|m: int| 0 <= m < rp.len() && rp[m] == it;
                        assert(r[m] == it);
                        assert(r.contains(it));
                        assert(false);
                    }
                }
            }
        }
    }
}


/// A checkpoint or final artifact, in either format, reads back as exactly
/// the records it was written from.
pub proof fn lemma_artifact_reads_back(format: crate::ExportFormat, fs: Seq<ExportFrameV>)
    requires
        wf_frames(fs),
    ensures
        match format {
            crate::ExportFormat::Json => crate::json::sp_doc(artifact_of(format, fs)) == Some(fs),
            crate::ExportFormat::Csv => crate::csv::sp_csv_doc(artifact_of(format, fs)) == Some(
                fs,
            ),
        },
{
    match format {
        crate::ExportFormat::Json => crate::json::lemma_json_round_trip(fs),
        crate::ExportFormat::Csv => crate::csv::lemma_csv_round_trip(fs),
    }
}

} // verus!
