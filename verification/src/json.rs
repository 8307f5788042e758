//! The export artifact codec: a canonical textual form for a sequence of
//! per-frame records, and a reader for that form.
//!
//! The writer emits one fixed shape — keys in a fixed order, no extra
//! whitespace — and the reader accepts exactly the shape the writer emits,
//! which is what the resume path reads back.

use vstd::prelude::*;
use crate::export::{Bbox, BboxV, ExportFrame, ExportFrameV};
use crate::export::{frames_view, is_num_byte, wf_bbox, wf_frame, wf_frames, wf_num_token};

verus! {

// Structural bytes of the artifact text, by their ASCII codes:
// 34 `"`  44 `,`  58 `:`  91 `[`  92 `\`  93 `]`  123 `{`  125 `}`
// 110 `n` 114 `r` 116 `t` 48..57 digits.
/// How one byte of a stored string is written: the quote, the backslash and
/// the three blank control bytes are escaped, every other byte stands as it
/// is.
pub open spec fn escaped_byte(b: u8) -> Seq<u8> {
    if b == 34 {
        seq![92u8, 34u8]
    } else if b == 92 {
        seq![92u8, 92u8]
    } else if b == 10 {
        seq![92u8, 110u8]
    } else if b == 13 {
        seq![92u8, 114u8]
    } else if b == 9 {
        seq![92u8, 116u8]
    } else {
        seq![b]
    }
}

/// The body of a stored string: each byte escaped.
pub open spec fn escape_bytes(s: Seq<u8>) -> Seq<u8>
    decreases s.len(),
{
    if s.len() == 0 {
        Seq::empty()
    } else {
        escaped_byte(s[0]) + escape_bytes(s.skip(1))
    }
}

/// A stored string: the escaped body between quotes.
pub open spec fn json_string(t: Seq<u8>) -> Seq<u8> {
    seq![34u8] + (escape_bytes(t) + seq![34u8])
}

/// The decimal digits of a non-negative integer.
pub open spec fn dec_bytes(n: nat) -> Seq<u8>
    decreases n,
{
    if n < 10 {
        seq![(48 + n) as u8]
    } else {
        dec_bytes(n / 10) + seq![(48 + n % 10) as u8]
    }
}

/// An optional stored string: `null` when absent.
pub open spec fn json_opt_string(t: Option<Seq<u8>>) -> Seq<u8> {
    match t {
        Some(s) => json_string(s),
        None => lit_null(),
    }
}

/// One rectangle object.
pub open spec fn json_bbox(b: BboxV) -> Seq<u8> {
    lit_key_x1() + (b.x1 + (lit_key_y1() + (b.y1 + (lit_key_x2() + (b.x2 + (lit_key_y2() + (b.y2
        + (lit_key_class() + (dec_bytes(b.class) + (lit_key_score() + (b.score
        + seq![125u8])))))))))))
}

/// The comma-separated rectangle objects of one record.
pub open spec fn json_bbox_seq(bs: Seq<BboxV>) -> Seq<u8>
    decreases bs.len(),
{
    if bs.len() == 0 {
        Seq::empty()
    } else if bs.len() == 1 {
        json_bbox(bs[0])
    } else {
        json_bbox(bs[0]) + (seq![44u8] + json_bbox_seq(bs.skip(1)))
    }
}

/// A rectangle list between brackets.
pub open spec fn json_bboxes(bs: Seq<BboxV>) -> Seq<u8> {
    seq![91u8] + (json_bbox_seq(bs) + seq![93u8])
}

/// An optional rectangle list: `null` when absent.
pub open spec fn json_opt_bboxes(o: Option<Seq<BboxV>>) -> Seq<u8> {
    match o {
        Some(bs) => json_bboxes(bs),
        None => lit_null(),
    }
}

/// The opening third of a record object: file, frame index, shoot time.
pub open spec fn json_frame_head(f: ExportFrameV) -> Seq<u8> {
    lit_key_file() + (json_string(f.file) + (lit_key_frame_index() + (dec_bytes(f.frame_index) + (
    lit_key_shoot_time() + json_opt_string(f.shoot_time)))))
}

/// The middle third of a record object: frame total and rectangles.
pub open spec fn json_frame_mid(f: ExportFrameV) -> Seq<u8> {
    lit_key_total_frames() + (dec_bytes(f.total_frames) + (lit_key_bboxes() + json_opt_bboxes(
        f.bboxes,
    )))
}

/// The closing third of a record object: label, error, closing brace.
pub open spec fn json_frame_tail(f: ExportFrameV) -> Seq<u8> {
    lit_key_label() + (json_opt_string(f.label) + (lit_key_error() + (json_opt_string(f.error)
        + seq![125u8])))
}

/// One record object, keys in the artifact's fixed order.
pub open spec fn json_frame(f: ExportFrameV) -> Seq<u8> {
    json_frame_head(f) + (json_frame_mid(f) + json_frame_tail(f))
}

/// The comma-separated record objects of the artifact.
pub open spec fn json_frame_seq(fs: Seq<ExportFrameV>) -> Seq<u8>
    decreases fs.len(),
{
    if fs.len() == 0 {
        Seq::empty()
    } else if fs.len() == 1 {
        json_frame(fs[0])
    } else {
        json_frame(fs[0]) + (seq![44u8] + json_frame_seq(fs.skip(1)))
    }
}

/// The whole artifact: the record objects between brackets.
pub open spec fn json_doc(fs: Seq<ExportFrameV>) -> Seq<u8> {
    seq![91u8] + (json_frame_seq(fs) + seq![93u8])
}

/// The artifact text `{"file":`.
pub open spec fn lit_key_file() -> Seq<u8> {
    seq![123u8, 34u8, 102u8, 105u8, 108u8, 101u8, 34u8, 58u8]
}

pub fn lit_key_file_vec() -> (r: Vec<u8>)
    ensures
        r@ == lit_key_file(),
{
    let mut r: Vec<u8> = Vec::new();
    r.push(123u8);
    r.push(34u8);
    r.push(102u8);
    r.push(105u8);
    r.push(108u8);
    r.push(101u8);
    r.push(34u8);
    r.push(58u8);
    proof {
        assert(r@ =~= lit_key_file());
    }
    r
}

/// The artifact text `,"frame_index":`.
pub open spec fn lit_key_frame_index() -> Seq<u8> {
    seq![44u8, 34u8, 102u8, 114u8, 97u8, 109u8, 101u8, 95u8, 105u8, 110u8, 100u8, 101u8, 120u8, 34u8, 58u8]
}

pub fn lit_key_frame_index_vec() -> (r: Vec<u8>)
    ensures
        r@ == lit_key_frame_index(),
{
    let mut r: Vec<u8> = Vec::new();
    r.push(44u8);
    r.push(34u8);
    r.push(102u8);
    r.push(114u8);
    r.push(97u8);
    r.push(109u8);
    r.push(101u8);
    r.push(95u8);
    r.push(105u8);
    r.push(110u8);
    r.push(100u8);
    r.push(101u8);
    r.push(120u8);
    r.push(34u8);
    r.push(58u8);
    proof {
        assert(r@ =~= lit_key_frame_index());
    }
    r
}

/// The artifact text `,"shoot_time":`.
pub open spec fn lit_key_shoot_time() -> Seq<u8> {
    seq![44u8, 34u8, 115u8, 104u8, 111u8, 111u8, 116u8, 95u8, 116u8, 105u8, 109u8, 101u8, 34u8, 58u8]
}

pub fn lit_key_shoot_time_vec() -> (r: Vec<u8>)
    ensures
        r@ == lit_key_shoot_time(),
{
    let mut r: Vec<u8> = Vec::new();
    r.push(44u8);
    r.push(34u8);
    r.push(115u8);
    r.push(104u8);
    r.push(111u8);
    r.push(111u8);
    r.push(116u8);
    r.push(95u8);
    r.push(116u8);
    r.push(105u8);
    r.push(109u8);
    r.push(101u8);
    r.push(34u8);
    r.push(58u8);
    proof {
        assert(r@ =~= lit_key_shoot_time());
    }
    r
}

/// The artifact text `,"total_frames":`.
pub open spec fn lit_key_total_frames() -> Seq<u8> {
    seq![44u8, 34u8, 116u8, 111u8, 116u8, 97u8, 108u8, 95u8, 102u8, 114u8, 97u8, 109u8, 101u8, 115u8, 34u8, 58u8]
}

pub fn lit_key_total_frames_vec() -> (r: Vec<u8>)
    ensures
        r@ == lit_key_total_frames(),
{
    let mut r: Vec<u8> = Vec::new();
    r.push(44u8);
    r.push(34u8);
    r.push(116u8);
    r.push(111u8);
    r.push(116u8);
    r.push(97u8);
    r.push(108u8);
    r.push(95u8);
    r.push(102u8);
    r.push(114u8);
    r.push(97u8);
    r.push(109u8);
    r.push(101u8);
    r.push(115u8);
    r.push(34u8);
    r.push(58u8);
    proof {
        assert(r@ =~= lit_key_total_frames());
    }
    r
}

/// The artifact text `,"bboxes":`.
pub open spec fn lit_key_bboxes() -> Seq<u8> {
    seq![44u8, 34u8, 98u8, 98u8, 111u8, 120u8, 101u8, 115u8, 34u8, 58u8]
}

pub fn lit_key_bboxes_vec() -> (r: Vec<u8>)
    ensures
        r@ == lit_key_bboxes(),
{
    let mut r: Vec<u8> = Vec::new();
    r.push(44u8);
    r.push(34u8);
    r.push(98u8);
    r.push(98u8);
    r.push(111u8);
    r.push(120u8);
    r.push(101u8);
    r.push(115u8);
    r.push(34u8);
    r.push(58u8);
    proof {
        assert(r@ =~= lit_key_bboxes());
    }
    r
}

/// The artifact text `,"label":`.
pub open spec fn lit_key_label() -> Seq<u8> {
    seq![44u8, 34u8, 108u8, 97u8, 98u8, 101u8, 108u8, 34u8, 58u8]
}

pub fn lit_key_label_vec() -> (r: Vec<u8>)
    ensures
        r@ == lit_key_label(),
{
    let mut r: Vec<u8> = Vec::new();
    r.push(44u8);
    r.push(34u8);
    r.push(108u8);
    r.push(97u8);
    r.push(98u8);
    r.push(101u8);
    r.push(108u8);
    r.push(34u8);
    r.push(58u8);
    proof {
        assert(r@ =~= lit_key_label());
    }
    r
}

/// The artifact text `,"error":`.
pub open spec fn lit_key_error() -> Seq<u8> {
    seq![44u8, 34u8, 101u8, 114u8, 114u8, 111u8, 114u8, 34u8, 58u8]
}

pub fn lit_key_error_vec() -> (r: Vec<u8>)
    ensures
        r@ == lit_key_error(),
{
    let mut r: Vec<u8> = Vec::new();
    r.push(44u8);
    r.push(34u8);
    r.push(101u8);
    r.push(114u8);
    r.push(114u8);
    r.push(111u8);
    r.push(114u8);
    r.push(34u8);
    r.push(58u8);
    proof {
        assert(r@ =~= lit_key_error());
    }
    r
}

/// The artifact text `{"x1":`.
pub open spec fn lit_key_x1() -> Seq<u8> {
    seq![123u8, 34u8, 120u8, 49u8, 34u8, 58u8]
}

pub fn lit_key_x1_vec() -> (r: Vec<u8>)
    ensures
        r@ == lit_key_x1(),
{
    let mut r: Vec<u8> = Vec::new();
    r.push(123u8);
    r.push(34u8);
    r.push(120u8);
    r.push(49u8);
    r.push(34u8);
    r.push(58u8);
    proof {
        assert(r@ =~= lit_key_x1());
    }
    r
}

/// The artifact text `,"y1":`.
pub open spec fn lit_key_y1() -> Seq<u8> {
    seq![44u8, 34u8, 121u8, 49u8, 34u8, 58u8]
}

pub fn lit_key_y1_vec() -> (r: Vec<u8>)
    ensures
        r@ == lit_key_y1(),
{
    let mut r: Vec<u8> = Vec::new();
    r.push(44u8);
    r.push(34u8);
    r.push(121u8);
    r.push(49u8);
    r.push(34u8);
    r.push(58u8);
    proof {
        assert(r@ =~= lit_key_y1());
    }
    r
}

/// The artifact text `,"x2":`.
pub open spec fn lit_key_x2() -> Seq<u8> {
    seq![44u8, 34u8, 120u8, 50u8, 34u8, 58u8]
}

pub fn lit_key_x2_vec() -> (r: Vec<u8>)
    ensures
        r@ == lit_key_x2(),
{
    let mut r: Vec<u8> = Vec::new();
    r.push(44u8);
    r.push(34u8);
    r.push(120u8);
    r.push(50u8);
    r.push(34u8);
    r.push(58u8);
    proof {
        assert(r@ =~= lit_key_x2());
    }
    r
}

/// The artifact text `,"y2":`.
pub open spec fn lit_key_y2() -> Seq<u8> {
    seq![44u8, 34u8, 121u8, 50u8, 34u8, 58u8]
}

pub fn lit_key_y2_vec() -> (r: Vec<u8>)
    ensures
        r@ == lit_key_y2(),
{
    let mut r: Vec<u8> = Vec::new();
    r.push(44u8);
    r.push(34u8);
    r.push(121u8);
    r.push(50u8);
    r.push(34u8);
    r.push(58u8);
    proof {
        assert(r@ =~= lit_key_y2());
    }
    r
}

/// The artifact text `,"class":`.
pub open spec fn lit_key_class() -> Seq<u8> {
    seq![44u8, 34u8, 99u8, 108u8, 97u8, 115u8, 115u8, 34u8, 58u8]
}

pub fn lit_key_class_vec() -> (r: Vec<u8>)
    ensures
        r@ == lit_key_class(),
{
    let mut r: Vec<u8> = Vec::new();
    r.push(44u8);
    r.push(34u8);
    r.push(99u8);
    r.push(108u8);
    r.push(97u8);
    r.push(115u8);
    r.push(115u8);
    r.push(34u8);
    r.push(58u8);
    proof {
        assert(r@ =~= lit_key_class());
    }
    r
}

/// The artifact text `,"score":`.
pub open spec fn lit_key_score() -> Seq<u8> {
    seq![44u8, 34u8, 115u8, 99u8, 111u8, 114u8, 101u8, 34u8, 58u8]
}

pub fn lit_key_score_vec() -> (r: Vec<u8>)
    ensures
        r@ == lit_key_score(),
{
    let mut r: Vec<u8> = Vec::new();
    r.push(44u8);
    r.push(34u8);
    r.push(115u8);
    r.push(99u8);
    r.push(111u8);
    r.push(114u8);
    r.push(101u8);
    r.push(34u8);
    r.push(58u8);
    proof {
        assert(r@ =~= lit_key_score());
    }
    r
}

/// The artifact text `null`.
pub open spec fn lit_null() -> Seq<u8> {
    seq![110u8, 117u8, 108u8, 108u8]
}

pub fn lit_null_vec() -> (r: Vec<u8>)
    ensures
        r@ == lit_null(),
{
    let mut r: Vec<u8> = Vec::new();
    r.push(110u8);
    r.push(117u8);
    r.push(108u8);
    r.push(108u8);
    proof {
        assert(r@ =~= lit_null());
    }
    r
}

/// The value stored in an optional byte field.
pub open spec fn opt_view(o: Option<Vec<u8>>) -> Option<Seq<u8>> {
    match o {
        Some(v) => Some(v@),
        None => None,
    }
}

/// Append a copy of `l` to `out`.
pub fn push_bytes(out: &mut Vec<u8>, l: &Vec<u8>)
    ensures
        final(out)@ == old(out)@ + l@,
{
    let mut j: usize = 0;
    while j < l.len()
        invariant
            j <= l@.len(),
            out@ == old(out)@ + l@.take(j as int),
        decreases l@.len() - j,
    {
        out.push(l[j]);
        proof {
            assert(old(out)@ + l@.take(j as int) + seq![l@[j as int]] =~= old(out)@ + l@.take(
                j as int + 1,
            ));
        }
        j = j + 1;
    }
    proof {
        assert(l@.take(l@.len() as int) =~= l@);
    }
}

proof fn lemma_escape_snoc(s: Seq<u8>, x: u8)
    ensures
        escape_bytes(s.push(x)) == escape_bytes(s) + escaped_byte(x),
    decreases s.len(),
{
    if s.len() == 0 {
        assert(s.push(x)[0] == x);
        assert(s.push(x).skip(1) =~= Seq::<u8>::empty());
        assert(escape_bytes(s.push(x)) == escaped_byte(x) + escape_bytes(Seq::<u8>::empty()));
        assert(escaped_byte(x) + Seq::<u8>::empty() =~= escaped_byte(x));
        assert(escape_bytes(s) + escaped_byte(x) =~= escaped_byte(x));
    } else {
        assert(s.push(x).skip(1) =~= s.skip(1).push(x));
        lemma_escape_snoc(s.skip(1), x);
        assert(escape_bytes(s.push(x)) == escaped_byte(s[0]) + (escape_bytes(s.skip(1)) + escaped_byte(
            x,
        )));
        assert(escaped_byte(s[0]) + (escape_bytes(s.skip(1)) + escaped_byte(x)) =~= (escaped_byte(
            s[0],
        ) + escape_bytes(s.skip(1))) + escaped_byte(x));
    }
}

/// Append the escaped body of `t` to `out`.
pub fn push_escaped(out: &mut Vec<u8>, t: &Vec<u8>)
    ensures
        final(out)@ == old(out)@ + escape_bytes(t@),
{
    let mut i: usize = 0;
    while i < t.len()
        invariant
            i <= t@.len(),
            out@ == old(out)@ + escape_bytes(t@.take(i as int)),
        decreases t@.len() - i,
    {
        let b = t[i];
        if b == 34 {
            out.push(92);
            out.push(34);
        } else if b == 92 {
            out.push(92);
            out.push(92);
        } else if b == 10 {
            out.push(92);
            out.push(110);
        } else if b == 13 {
            out.push(92);
            out.push(114);
        } else if b == 9 {
            out.push(92);
            out.push(116);
        } else {
            out.push(b);
        }
        proof {
            assert(t@.take(i as int + 1) =~= t@.take(i as int).push(t@[i as int]));
            lemma_escape_snoc(t@.take(i as int), t@[i as int]);
            assert(out@ =~= old(out)@ + escape_bytes(t@.take(i as int + 1)));
        }
        i = i + 1;
    }
    proof {
        assert(t@.take(t@.len() as int) =~= t@);
    }
}

/// Append a stored string holding `t` to `out`.
pub fn push_json_string(out: &mut Vec<u8>, t: &Vec<u8>)
    ensures
        final(out)@ == old(out)@ + json_string(t@),
{
    out.push(34);
    push_escaped(out, t);
    out.push(34);
    proof {
        assert(final(out)@ =~= old(out)@ + json_string(t@));
    }
}

/// Append the decimal digits of `n` to `out`.
pub fn push_dec(out: &mut Vec<u8>, n: usize)
    ensures
        final(out)@ == old(out)@ + dec_bytes(n as nat),
    decreases n,
{
    if n < 10 {
        out.push(48 + n as u8);
        proof {
            assert(final(out)@ =~= old(out)@ + dec_bytes(n as nat));
        }
    } else {
        push_dec(out, n / 10);
        out.push(48 + (n % 10) as u8);
        proof {
            assert(final(out)@ =~= old(out)@ + dec_bytes(n as nat));
        }
    }
}

/// Append a stored string or `null` to `out`.
pub fn push_opt_string(out: &mut Vec<u8>, o: &Option<Vec<u8>>)
    ensures
        final(out)@ == old(out)@ + json_opt_string(opt_view(*o)),
{
    match o {
        Some(t) => push_json_string(out, t),
        None => {
            let l = lit_null_vec();
            push_bytes(out, &l);
        },
    }
}

/// Append one rectangle object to `out`.
pub fn push_bbox(out: &mut Vec<u8>, b: &Bbox)
    ensures
        final(out)@ == old(out)@ + json_bbox(b@),
{
    let l = lit_key_x1_vec();
    push_bytes(out, &l);
    push_bytes(out, &b.x1);
    let l = lit_key_y1_vec();
    push_bytes(out, &l);
    push_bytes(out, &b.y1);
    let l = lit_key_x2_vec();
    push_bytes(out, &l);
    push_bytes(out, &b.x2);
    let l = lit_key_y2_vec();
    push_bytes(out, &l);
    push_bytes(out, &b.y2);
    let l = lit_key_class_vec();
    push_bytes(out, &l);
    push_dec(out, b.class);
    let l = lit_key_score_vec();
    push_bytes(out, &l);
    push_bytes(out, &b.score);
    out.push(125);
    proof {
        assert(final(out)@ =~= old(out)@ + json_bbox(b@));
    }
}

proof fn lemma_bbox_seq_snoc(bs: Seq<BboxV>, b: BboxV)
    ensures
        json_bbox_seq(bs.push(b)) == if bs.len() == 0 {
            json_bbox(b)
        } else {
            json_bbox_seq(bs) + (seq![44u8] + json_bbox(b))
        },
    decreases bs.len(),
{
    if bs.len() == 0 {
        assert(bs.push(b)[0] == b);
        assert(json_bbox_seq(bs.push(b)) == json_bbox(b));
    } else if bs.len() == 1 {
        assert(bs.push(b).skip(1) =~= seq![b]);
        assert(json_bbox_seq(bs.push(b).skip(1)) == json_bbox(b));
        assert(json_bbox_seq(bs) == json_bbox(bs[0]));
    } else {
        assert(bs.push(b).skip(1) =~= bs.skip(1).push(b));
        lemma_bbox_seq_snoc(bs.skip(1), b);
        assert(json_bbox_seq(bs.push(b)) == json_bbox(bs[0]) + (seq![44u8] + (json_bbox_seq(
            bs.skip(1),
        ) + (seq![44u8] + json_bbox(b)))));
        assert(json_bbox(bs[0]) + (seq![44u8] + (json_bbox_seq(bs.skip(1)) + (seq![44u8]
            + json_bbox(b)))) =~= (json_bbox(bs[0]) + (seq![44u8] + json_bbox_seq(bs.skip(1)))) + (
        seq![44u8] + json_bbox(b)));
    }
}

/// Append a rectangle list to `out`.
pub fn push_bboxes(out: &mut Vec<u8>, bs: &Vec<Bbox>)
    ensures
        final(out)@ == old(out)@ + json_bboxes(bs@.map_values(|b: Bbox| b@)),
{
    let ghost views = bs@.map_values(|b: Bbox| b@);
    out.push(91);
    let mut i: usize = 0;
    while i < bs.len()
        invariant
            i <= bs@.len(),
            views == bs@.map_values(|b: Bbox| b@),
            out@ == old(out)@ + seq![91u8] + json_bbox_seq(views.take(i as int)),
        decreases bs@.len() - i,
    {
        if i > 0 {
            out.push(44);
        }
        push_bbox(out, &bs[i]);
        proof {
            assert(views.take(i as int + 1) =~= views.take(i as int).push(views[i as int]));
            lemma_bbox_seq_snoc(views.take(i as int), views[i as int]);
            assert(views[i as int] == bs@[i as int]@);
            assert(out@ =~= old(out)@ + seq![91u8] + json_bbox_seq(views.take(i as int + 1)));
        }
        i = i + 1;
    }
    out.push(93);
    proof {
        assert(views.take(views.len() as int) =~= views);
        assert(final(out)@ =~= old(out)@ + json_bboxes(views));
    }
}

fn push_frame_head(out: &mut Vec<u8>, f: &ExportFrame)
    ensures
        final(out)@ == old(out)@ + json_frame_head(f@),
{
    let l = lit_key_file_vec();
    push_bytes(out, &l);
    push_json_string(out, &f.file);
    let l = lit_key_frame_index_vec();
    push_bytes(out, &l);
    push_dec(out, f.frame_index);
    let l = lit_key_shoot_time_vec();
    push_bytes(out, &l);
    push_opt_string(out, &f.shoot_time);
    proof {
        assert(final(out)@ =~= old(out)@ + json_frame_head(f@));
    }
}

fn push_frame_mid(out: &mut Vec<u8>, f: &ExportFrame)
    ensures
        final(out)@ == old(out)@ + json_frame_mid(f@),
{
    let l = lit_key_total_frames_vec();
    push_bytes(out, &l);
    push_dec(out, f.total_frames);
    let l = lit_key_bboxes_vec();
    push_bytes(out, &l);
    match &f.bboxes {
        Some(bs) => push_bboxes(out, bs),
        None => {
            let l = lit_null_vec();
            push_bytes(out, &l);
        },
    }
    proof {
        assert(final(out)@ =~= old(out)@ + json_frame_mid(f@));
    }
}

fn push_frame_tail(out: &mut Vec<u8>, f: &ExportFrame)
    ensures
        final(out)@ == old(out)@ + json_frame_tail(f@),
{
    let l = lit_key_label_vec();
    push_bytes(out, &l);
    push_opt_string(out, &f.label);
    let l = lit_key_error_vec();
    push_bytes(out, &l);
    push_opt_string(out, &f.error);
    out.push(125);
    proof {
        assert(final(out)@ =~= old(out)@ + json_frame_tail(f@));
    }
}

/// Append one record object to `out`.
pub fn push_frame(out: &mut Vec<u8>, f: &ExportFrame)
    ensures
        final(out)@ == old(out)@ + json_frame(f@),
{
    push_frame_head(out, f);
    push_frame_mid(out, f);
    push_frame_tail(out, f);
    proof {
        assert(final(out)@ =~= old(out)@ + json_frame(f@));
    }
}

proof fn lemma_frame_seq_snoc(fs: Seq<ExportFrameV>, f: ExportFrameV)
    ensures
        json_frame_seq(fs.push(f)) == if fs.len() == 0 {
            json_frame(f)
        } else {
            json_frame_seq(fs) + (seq![44u8] + json_frame(f))
        },
    decreases fs.len(),
{
    if fs.len() == 0 {
        assert(fs.push(f)[0] == f);
        assert(json_frame_seq(fs.push(f)) == json_frame(f));
    } else if fs.len() == 1 {
        assert(fs.push(f).skip(1) =~= seq![f]);
        assert(json_frame_seq(fs.push(f).skip(1)) == json_frame(f));
        assert(json_frame_seq(fs) == json_frame(fs[0]));
    } else {
        assert(fs.push(f).skip(1) =~= fs.skip(1).push(f));
        lemma_frame_seq_snoc(fs.skip(1), f);
        assert(json_frame_seq(fs.push(f)) == json_frame(fs[0]) + (seq![44u8] + (json_frame_seq(
            fs.skip(1),
        ) + (seq![44u8] + json_frame(f)))));
        assert(json_frame(fs[0]) + (seq![44u8] + (json_frame_seq(fs.skip(1)) + (seq![44u8]
            + json_frame(f)))) =~= (json_frame(fs[0]) + (seq![44u8] + json_frame_seq(fs.skip(1))))
            + (seq![44u8] + json_frame(f)));
    }
}

/// Serialize a sequence of records to the canonical artifact text.
pub fn write_json(frames: &Vec<ExportFrame>) -> (r: Vec<u8>)
    ensures
        r@ == json_doc(frames_view(frames@)),
{
    let ghost views = frames_view(frames@);
    let mut out: Vec<u8> = Vec::new();
    out.push(91);
    let mut i: usize = 0;
    while i < frames.len()
        invariant
            i <= frames@.len(),
            views == frames_view(frames@),
            out@ == seq![91u8] + json_frame_seq(views.take(i as int)),
        decreases frames@.len() - i,
    {
        if i > 0 {
            out.push(44);
        }
        push_frame(&mut out, &frames[i]);
        proof {
            assert(views.take(i as int + 1) =~= views.take(i as int).push(views[i as int]));
            lemma_frame_seq_snoc(views.take(i as int), views[i as int]);
            assert(views[i as int] == frames@[i as int]@);
            assert(out@ =~= seq![91u8] + json_frame_seq(views.take(i as int + 1)));
        }
        i = i + 1;
    }
    out.push(93);
    proof {
        assert(views.take(views.len() as int) =~= views);
        assert(out@ =~= json_doc(views));
    }
    out
}

// ---------------------------------------------------------------------------
// Reading the artifact back.
/// Consume the exact byte sequence `l` at position `i`.
pub open spec fn sp_lit(l: Seq<u8>, s: Seq<u8>, i: int) -> Option<int> {
    if 0 <= i && i + l.len() <= s.len() && s.subrange(i, i + l.len()) == l {
        Some(i + l.len())
    } else {
        None
    }
}

/// The byte a short escape stands for, if the code is one the writer emits.
pub open spec fn unescaped_code(c: u8) -> Option<u8> {
    if c == 34 {
        Some(34)
    } else if c == 92 {
        Some(92)
    } else if c == 110 {
        Some(10)
    } else if c == 114 {
        Some(13)
    } else if c == 116 {
        Some(9)
    } else {
        None
    }
}

/// Consume a string body up to and including the closing quote, yielding the
/// unescaped bytes.
pub open spec fn sp_string_body(s: Seq<u8>, i: int) -> Option<(Seq<u8>, int)>
    decreases s.len() - i,
{
    if i < 0 || i >= s.len() {
        None
    } else if s[i] == 34 {
        Some((Seq::empty(), i + 1))
    } else if s[i] == 92 {
        if i + 1 < s.len() {
            match unescaped_code(s[i + 1]) {
                Some(b) => match sp_string_body(s, i + 2) {
                    Some(r) => Some((seq![b] + r.0, r.1)),
                    None => None,
                },
                None => None,
            }
        } else {
            None
        }
    } else {
        match sp_string_body(s, i + 1) {
            Some(r) => Some((seq![s[i]] + r.0, r.1)),
            None => None,
        }
    }
}

/// Consume a quoted string at position `i`.
pub open spec fn sp_string(s: Seq<u8>, i: int) -> Option<(Seq<u8>, int)> {
    if 0 <= i < s.len() && s[i] == 34 {
        sp_string_body(s, i + 1)
    } else {
        None
    }
}

/// The end of the run of numeric bytes that starts at `i`.
pub open spec fn sp_num_end(s: Seq<u8>, i: int) -> int
    decreases s.len() - i,
{
    if i < 0 || i >= s.len() {
        i
    } else if is_num_byte(s[i]) {
        sp_num_end(s, i + 1)
    } else {
        i
    }
}

/// Consume a nonempty numeric token.
pub open spec fn sp_num(s: Seq<u8>, i: int) -> Option<(Seq<u8>, int)> {
    let e = sp_num_end(s, i);
    if 0 <= i && e > i {
        Some((s.subrange(i, e), e))
    } else {
        None
    }
}

/// A decimal digit byte.
pub open spec fn is_digit(b: u8) -> bool {
    48 <= b <= 57
}

/// The end of the run of digit bytes that starts at `i`.
pub open spec fn sp_digits_end(s: Seq<u8>, i: int) -> int
    decreases s.len() - i,
{
    if i < 0 || i >= s.len() {
        i
    } else if is_digit(s[i]) {
        sp_digits_end(s, i + 1)
    } else {
        i
    }
}

/// The value of a digit run.
pub open spec fn digits_val(t: Seq<u8>) -> int
    decreases t.len(),
{
    if t.len() == 0 {
        0
    } else {
        digits_val(t.take(t.len() - 1)) * 10 + (t[t.len() - 1] - 48)
    }
}

/// Consume a nonempty digit run whose value fits a machine word.
pub open spec fn sp_usize(s: Seq<u8>, i: int) -> Option<(int, int)> {
    let e = sp_digits_end(s, i);
    if 0 <= i && e > i && digits_val(s.subrange(i, e)) <= usize::MAX {
        Some((digits_val(s.subrange(i, e)), e))
    } else {
        None
    }
}

/// Consume one rectangle object.
pub open spec fn sp_bbox(s: Seq<u8>, i: int) -> Option<(BboxV, int)> {
    match sp_lit(lit_key_x1(), s, i) {
        None => None,
        Some(i1) => match sp_num(s, i1) {
            None => None,
            Some((x1, i2)) => match sp_lit(lit_key_y1(), s, i2) {
                None => None,
                Some(i3) => match sp_num(s, i3) {
                    None => None,
                    Some((y1, i4)) => match sp_lit(lit_key_x2(), s, i4) {
                        None => None,
                        Some(i5) => match sp_num(s, i5) {
                            None => None,
                            Some((x2, i6)) => match sp_lit(lit_key_y2(), s, i6) {
                                None => None,
                                Some(i7) => match sp_num(s, i7) {
                                    None => None,
                                    Some((y2, i8)) => match sp_lit(lit_key_class(), s, i8) {
                                        None => None,
                                        Some(i9) => match sp_usize(s, i9) {
                                            None => None,
                                            Some((class, i10)) => match sp_lit(
                                                lit_key_score(),
                                                s,
                                                i10,
                                            ) {
                                                None => None,
                                                Some(i11) => match sp_num(s, i11) {
                                                    None => None,
                                                    Some((score, i12)) => match sp_lit(
                                                        seq![125u8],
                                                        s,
                                                        i12,
                                                    ) {
                                                        None => None,
                                                        Some(i13) => Some(
                                                            (
                                                                BboxV {
                                                                    x1,
                                                                    y1,
                                                                    x2,
                                                                    y2,
                                                                    class: class as nat,
                                                                    score,
                                                                },
                                                                i13,
                                                            ),
                                                        ),
                                                    },
                                                },
                                            },
                                        },
                                    },
                                },
                            },
                        },
                    },
                },
            },
        },
    }
}

/// Consume one or more comma-separated rectangle objects.
pub open spec fn sp_bbox_seq(s: Seq<u8>, i: int) -> Option<(Seq<BboxV>, int)>
    decreases s.len() - i,
{
    match sp_bbox(s, i) {
        None => None,
        Some((b, j)) => if i < j <= s.len() {
            if j < s.len() && s[j] == 44 {
                match sp_bbox_seq(s, j + 1) {
                    Some(r) => Some((seq![b] + r.0, r.1)),
                    None => None,
                }
            } else {
                Some((seq![b], j))
            }
        } else {
            None
        },
    }
}

/// Consume a bracketed rectangle list.
pub open spec fn sp_bboxes(s: Seq<u8>, i: int) -> Option<(Seq<BboxV>, int)> {
    match sp_lit(seq![91u8], s, i) {
        None => None,
        Some(i1) => if i1 < s.len() && s[i1] == 93 {
            Some((Seq::empty(), i1 + 1))
        } else {
            match sp_bbox_seq(s, i1) {
                None => None,
                Some((bs, j)) => match sp_lit(seq![93u8], s, j) {
                    None => None,
                    Some(k) => Some((bs, k)),
                },
            }
        },
    }
}

/// Consume a quoted string or the word `null`.
pub open spec fn sp_opt_string(s: Seq<u8>, i: int) -> Option<(Option<Seq<u8>>, int)> {
    if 0 <= i < s.len() && s[i] == 34 {
        match sp_string(s, i) {
            Some((t, j)) => Some((Some(t), j)),
            None => None,
        }
    } else {
        match sp_lit(lit_null(), s, i) {
            Some(j) => Some((None, j)),
            None => None,
        }
    }
}

/// Consume a rectangle list or the word `null`.
pub open spec fn sp_opt_bboxes(s: Seq<u8>, i: int) -> Option<(Option<Seq<BboxV>>, int)> {
    if 0 <= i < s.len() && s[i] == 91 {
        match sp_bboxes(s, i) {
            Some((bs, j)) => Some((Some(bs), j)),
            None => None,
        }
    } else {
        match sp_lit(lit_null(), s, i) {
            Some(j) => Some((None, j)),
            None => None,
        }
    }
}

/// Consume one record object.
pub open spec fn sp_frame(s: Seq<u8>, i: int) -> Option<(ExportFrameV, int)> {
    match sp_lit(lit_key_file(), s, i) {
        None => None,
        Some(i1) => match sp_string(s, i1) {
            None => None,
            Some((file, i2)) => match sp_lit(lit_key_frame_index(), s, i2) {
                None => None,
                Some(i3) => match sp_usize(s, i3) {
                    None => None,
                    Some((frame_index, i4)) => match sp_lit(lit_key_shoot_time(), s, i4) {
                        None => None,
                        Some(i5) => match sp_opt_string(s, i5) {
                            None => None,
                            Some((shoot_time, i6)) => match sp_lit(lit_key_total_frames(), s, i6) {
                                None => None,
                                Some(i7) => match sp_usize(s, i7) {
                                    None => None,
                                    Some((total_frames, i8)) => match sp_lit(
                                        lit_key_bboxes(),
                                        s,
                                        i8,
                                    ) {
                                        None => None,
                                        Some(i9) => match sp_opt_bboxes(s, i9) {
                                            None => None,
                                            Some((bboxes, i10)) => match sp_lit(
                                                lit_key_label(),
                                                s,
                                                i10,
                                            ) {
                                                None => None,
                                                Some(i11) => match sp_opt_string(s, i11) {
                                                    None => None,
                                                    Some((label, i12)) => match sp_lit(
                                                        lit_key_error(),
                                                        s,
                                                        i12,
                                                    ) {
                                                        None => None,
                                                        Some(i13) => match sp_opt_string(s, i13) {
                                                            None => None,
                                                            Some((error, i14)) => match sp_lit(
                                                                seq![125u8],
                                                                s,
                                                                i14,
                                                            ) {
                                                                None => None,
                                                                Some(i15) => Some(
                                                                    (
                                                                        ExportFrameV {
                                                                            file,
                                                                            frame_index: frame_index as nat,
                                                                            shoot_time,
                                                                            total_frames: total_frames as nat,
                                                                            bboxes,
                                                                            label,
                                                                            error,
                                                                        },
                                                                        i15,
                                                                    ),
                                                                ),
                                                            },
                                                        },
                                                    },
                                                },
                                            },
                                        },
                                    },
                                },
                            },
                        },
                    },
                },
            },
        },
    }
}

/// Consume one or more comma-separated record objects.
pub open spec fn sp_frame_seq(s: Seq<u8>, i: int) -> Option<(Seq<ExportFrameV>, int)>
    decreases s.len() - i,
{
    match sp_frame(s, i) {
        None => None,
        Some((f, j)) => if i < j <= s.len() {
            if j < s.len() && s[j] == 44 {
                match sp_frame_seq(s, j + 1) {
                    Some(r) => Some((seq![f] + r.0, r.1)),
                    None => None,
                }
            } else {
                Some((seq![f], j))
            }
        } else {
            None
        },
    }
}

/// Read a whole artifact text: the record sequence it stores, provided the
/// text has the canonical shape and nothing trails it.
pub open spec fn sp_doc(s: Seq<u8>) -> Option<Seq<ExportFrameV>> {
    match sp_lit(seq![91u8], s, 0) {
        None => None,
        Some(i1) => if i1 < s.len() && s[i1] == 93 {
            if i1 + 1 == s.len() {
                Some(Seq::empty())
            } else {
                None
            }
        } else {
            match sp_frame_seq(s, i1) {
                None => None,
                Some((fs, j)) => match sp_lit(seq![93u8], s, j) {
                    None => None,
                    Some(k) => if k == s.len() {
                        Some(fs)
                    } else {
                        None
                    },
                },
            }
        },
    }
}

/// Whether `b` may appear in a numeric token.
pub fn num_byte(b: u8) -> (r: bool)
    ensures
        r == is_num_byte(b),
{
    (48 <= b && b <= 57) || b == 46 || b == 45 || b == 43 || b == 101 || b == 69
}

/// Whether `b` is a decimal digit byte.
pub fn digit_byte(b: u8) -> (r: bool)
    ensures
        r == is_digit(b),
{
    48 <= b && b <= 57
}

/// Consume the bytes of `l` at position `i` of `v`.
pub fn eat_lit(v: &Vec<u8>, i: usize, l: &Vec<u8>) -> (r: Option<usize>)
    ensures
        match r {
            Some(j) => sp_lit(l@, v@, i as int) == Some(j as int) && i <= j <= v@.len(),
            None => sp_lit(l@, v@, i as int) is None,
        },
{
    if i > v.len() || v.len() - i < l.len() {
        return None;
    }
    let mut k: usize = 0;
    while k < l.len()
        invariant
            i + l@.len() <= v@.len(),
            v@.len() <= usize::MAX,
            k <= l@.len(),
            forall|m: int| 0 <= m < k ==> v@[i + m] == l@[m],
        decreases l@.len() - k,
    {
        if v[i + k] != l[k] {
            proof {
                assert(v@.subrange(i as int, i as int + l@.len())[k as int] == v@[i + k]);
            }
            return None;
        }
        k = k + 1;
    }
    proof {
        assert(v@.subrange(i as int, i as int + l@.len()) =~= l@);
    }
    Some(i + l.len())
}

/// Consume the single byte `b` at position `i` of `v`.
pub fn eat_byte(v: &Vec<u8>, i: usize, b: u8) -> (r: Option<usize>)
    ensures
        match r {
            Some(j) => sp_lit(seq![b], v@, i as int) == Some(j as int) && i < j <= v@.len(),
            None => sp_lit(seq![b], v@, i as int) is None,
        },
{
    if i < v.len() && v[i] == b {
        proof {
            assert(v@.subrange(i as int, i as int + 1) =~= seq![b]);
        }
        Some(i + 1)
    } else {
        proof {
            if i < v@.len() {
                assert(v@.subrange(i as int, i as int + 1)[0] == v@[i as int]);
            }
        }
        None
    }
}

/// Consume a quoted string at position `i` of `v`, yielding its bytes.
pub fn parse_string(v: &Vec<u8>, i: usize) -> (r: Option<(Vec<u8>, usize)>)
    ensures
        match r {
            Some(t) => sp_string(v@, i as int) == Some((t.0@, t.1 as int)) && i < t.1 <= v@.len(),
            None => sp_string(v@, i as int) is None,
        },
{
    if i >= v.len() || v[i] != 34 {
        return None;
    }
    let mut cur: usize = i + 1;
    let mut t: Vec<u8> = Vec::new();
    loop
        invariant
            i + 1 <= cur <= v@.len(),
            sp_string_body(v@, i as int + 1) == (match sp_string_body(v@, cur as int) {
                Some(r) => Some((t@ + r.0, r.1)),
                None => None,
            }),
            v@.len() == v.len(),
            v@[i as int] == 34,
            i < v@.len(),
        decreases v@.len() - cur,
    {
        if cur >= v.len() {
            return None;
        }
        let b = v[cur];
        if b == 34 {
            proof {
                assert(sp_string_body(v@, cur as int) == Some((Seq::<u8>::empty(), cur as int + 1)));
                assert(t@ + Seq::<u8>::empty() =~= t@);
            }
            return Some((t, cur + 1));
        } else if b == 92 {
            if cur + 1 >= v.len() {
                return None;
            }
            let c = v[cur + 1];
            let dec: Option<u8> = if c == 34 {
                Some(34)
            } else if c == 92 {
                Some(92)
            } else if c == 110 {
                Some(10)
            } else if c == 114 {
                Some(13)
            } else if c == 116 {
                Some(9)
            } else {
                None
            };
            match dec {
                Some(d) => {
                    let ghost old_t = t@;
                    t.push(d);
                    proof {
                        assert(unescaped_code(c) == Some(d));
                        assert(sp_string_body(v@, cur as int) == (match sp_string_body(
                            v@,
                            cur as int + 2,
                        ) {
                            Some(r) => Some((seq![d] + r.0, r.1)),
                            None => None,
                        }));
                        match sp_string_body(v@, cur as int + 2) {
                            Some(r) => {
                                assert(old_t + (seq![d] + r.0) =~= t@ + r.0);
                            },
                            None => {},
                        }
                    }
                    cur = cur + 2;
                },
                None => {
                    return None;
                },
            }
        } else {
            let ghost old_t = t@;
            t.push(b);
            proof {
                assert(sp_string_body(v@, cur as int) == (match sp_string_body(v@, cur as int + 1) {
                    Some(r) => Some((seq![b] + r.0, r.1)),
                    None => None,
                }));
                match sp_string_body(v@, cur as int + 1) {
                    Some(r) => {
                        assert(old_t + (seq![b] + r.0) =~= t@ + r.0);
                    },
                    None => {},
                }
            }
            cur = cur + 1;
        }
    }
}

/// Consume a nonempty numeric token at position `i` of `v`.
pub fn parse_num(v: &Vec<u8>, i: usize) -> (r: Option<(Vec<u8>, usize)>)
    ensures
        match r {
            Some(t) => sp_num(v@, i as int) == Some((t.0@, t.1 as int)) && i < t.1 <= v@.len(),
            None => sp_num(v@, i as int) is None,
        },
{
    if i > v.len() {
        return None;
    }
    let mut e: usize = i;
    while e < v.len() && num_byte(v[e])
        invariant
            i <= e <= v@.len(),
            sp_num_end(v@, i as int) == sp_num_end(v@, e as int),
        decreases v@.len() - e,
    {
        e = e + 1;
    }
    proof {
        assert(sp_num_end(v@, e as int) == e as int);
    }
    if e > i {
        let mut tok: Vec<u8> = Vec::new();
        let mut k: usize = i;
        while k < e
            invariant
                i <= k <= e <= v@.len(),
                tok@ == v@.subrange(i as int, k as int),
            decreases e - k,
        {
            tok.push(v[k]);
            proof {
                assert(v@.subrange(i as int, k as int + 1) =~= v@.subrange(i as int, k as int).push(
                    v@[k as int],
                ));
            }
            k = k + 1;
        }
        Some((tok, e))
    } else {
        None
    }
}

/// Consume a nonempty digit run at position `i` of `v`, yielding its value.
pub fn parse_usize(v: &Vec<u8>, i: usize) -> (r: Option<(usize, usize)>)
    ensures
        match r {
            Some(t) => sp_usize(v@, i as int) == Some((t.0 as int, t.1 as int)) && i < t.1
                <= v@.len(),
            None => sp_usize(v@, i as int) is None,
        },
{
    if i > v.len() {
        return None;
    }
    let mut e: usize = i;
    let mut acc: u128 = 0;
    let mut over: bool = false;
    while e < v.len() && digit_byte(v[e])
        invariant
            i <= e <= v@.len(),
            sp_digits_end(v@, i as int) == sp_digits_end(v@, e as int),
            !over ==> acc == digits_val(v@.subrange(i as int, e as int)) && acc <= usize::MAX
                as u128,
            over ==> digits_val(v@.subrange(i as int, e as int)) > usize::MAX,
            digits_val(v@.subrange(i as int, e as int)) >= 0,
        decreases v@.len() - e,
    {
        let d = v[e] - 48;
        proof {
            assert(v@.subrange(i as int, e as int + 1).take(e - i) =~= v@.subrange(
                i as int,
                e as int,
            ));
            assert(v@.subrange(i as int, e as int + 1)[e - i] == v@[e as int]);
        }
        if !over {
            let cand: u128 = acc * 10 + d as u128;
            if cand > usize::MAX as u128 {
                over = true;
            } else {
                acc = cand;
            }
        }
        e = e + 1;
    }
    proof {
        assert(sp_digits_end(v@, e as int) == e as int);
    }
    if e > i && !over {
        Some((acc as usize, e))
    } else {
        None
    }
}

/// Consume a quoted string or `null` at position `i` of `v`.
pub fn parse_opt_string(v: &Vec<u8>, i: usize) -> (r: Option<(Option<Vec<u8>>, usize)>)
    ensures
        match r {
            Some(t) => sp_opt_string(v@, i as int) == Some((opt_view(t.0), t.1 as int)) && i < t.1
                <= v@.len(),
            None => sp_opt_string(v@, i as int) is None,
        },
{
    if i < v.len() && v[i] == 34 {
        match parse_string(v, i) {
            Some((t, j)) => Some((Some(t), j)),
            None => None,
        }
    } else {
        let l = lit_null_vec();
        match eat_lit(v, i, &l) {
            Some(j) => {
                proof {
                    assert(i < j);
                }
                Some((None, j))
            },
            None => None,
        }
    }
}

/// Consume one rectangle object at position `i` of `v`.
#[verifier::rlimit(60)]
pub fn parse_bbox(v: &Vec<u8>, i: usize) -> (r: Option<(Bbox, usize)>)
    ensures
        match r {
            Some(t) => sp_bbox(v@, i as int) == Some((t.0@, t.1 as int)) && i < t.1 <= v@.len(),
            None => sp_bbox(v@, i as int) is None,
        },
{
    let l = lit_key_x1_vec();
    let i1 = match eat_lit(v, i, &l) {
        Some(j) => j,
        None => {
            return None;
        },
    };
    let (x1, i2) = match parse_num(v, i1) {
        Some(t) => t,
        None => {
            return None;
        },
    };
    let l = lit_key_y1_vec();
    let i3 = match eat_lit(v, i2, &l) {
        Some(j) => j,
        None => {
            return None;
        },
    };
    let (y1, i4) = match parse_num(v, i3) {
        Some(t) => t,
        None => {
            return None;
        },
    };
    let l = lit_key_x2_vec();
    let i5 = match eat_lit(v, i4, &l) {
        Some(j) => j,
        None => {
            return None;
        },
    };
    let (x2, i6) = match parse_num(v, i5) {
        Some(t) => t,
        None => {
            return None;
        },
    };
    let l = lit_key_y2_vec();
    let i7 = match eat_lit(v, i6, &l) {
        Some(j) => j,
        None => {
            return None;
        },
    };
    let (y2, i8) = match parse_num(v, i7) {
        Some(t) => t,
        None => {
            return None;
        },
    };
    let l = lit_key_class_vec();
    let i9 = match eat_lit(v, i8, &l) {
        Some(j) => j,
        None => {
            return None;
        },
    };
    let (class, i10) = match parse_usize(v, i9) {
        Some(t) => t,
        None => {
            return None;
        },
    };
    let l = lit_key_score_vec();
    let i11 = match eat_lit(v, i10, &l) {
        Some(j) => j,
        None => {
            return None;
        },
    };
    let (score, i12) = match parse_num(v, i11) {
        Some(t) => t,
        None => {
            return None;
        },
    };
    let i13 = match eat_byte(v, i12, 125) {
        Some(j) => j,
        None => {
            return None;
        },
    };
    Some((Bbox { x1, y1, x2, y2, class, score }, i13))
}

/// Consume one or more comma-separated rectangle objects.
pub fn parse_bbox_seq(v: &Vec<u8>, i: usize) -> (r: Option<(Vec<Bbox>, usize)>)
    ensures
        match r {
            Some(t) => sp_bbox_seq(v@, i as int) == Some(
                (t.0@.map_values(|b: Bbox| b@), t.1 as int),
            ) && i < t.1 <= v@.len(),
            None => sp_bbox_seq(v@, i as int) is None,
        },
{
    if i > v.len() {
        return None;
    }
    let mut built: Vec<Bbox> = Vec::new();
    let mut cur: usize = i;
    loop
        invariant
            i <= cur <= v@.len(),
            v@.len() == v.len(),
            cur == i ==> built@.len() == 0,
            cur > i ==> built@.len() > 0,
            sp_bbox_seq(v@, i as int) == (match sp_bbox_seq(v@, cur as int) {
                Some(r) => Some((built@.map_values(|b: Bbox| b@) + r.0, r.1)),
                None => None,
            }),
        decreases v@.len() - cur,
    {
        let ghost old_built = built@.map_values(|b: Bbox| b@);
        let (b, j) = match parse_bbox(v, cur) {
            Some(t) => t,
            None => {
                return None;
            },
        };
        built.push(b);
        proof {
            assert(built@.map_values(|b: Bbox| b@) =~= old_built.push(built@.last()@));
        }
        if j < v.len() && v[j] == 44 {
            proof {
                match sp_bbox_seq(v@, j as int + 1) {
                    Some(r) => {
                        assert(sp_bbox_seq(v@, cur as int) == Some((seq![b@] + r.0, r.1)));
                        assert(old_built + (seq![b@] + r.0) =~= built@.map_values(|b: Bbox| b@)
                            + r.0);
                    },
                    None => {
                        assert(sp_bbox_seq(v@, cur as int) is None);
                    },
                }
            }
            cur = j + 1;
        } else {
            proof {
                assert(sp_bbox_seq(v@, cur as int) == Some((seq![b@], j as int)));
                assert(old_built + seq![b@] =~= built@.map_values(|b: Bbox| b@));
            }
            return Some((built, j));
        }
    }
}

/// Consume a bracketed rectangle list at position `i` of `v`.
pub fn parse_bboxes(v: &Vec<u8>, i: usize) -> (r: Option<(Vec<Bbox>, usize)>)
    ensures
        match r {
            Some(t) => sp_bboxes(v@, i as int) == Some(
                (t.0@.map_values(|b: Bbox| b@), t.1 as int),
            ) && i < t.1 <= v@.len(),
            None => sp_bboxes(v@, i as int) is None,
        },
{
    let i1 = match eat_byte(v, i, 91) {
        Some(j) => j,
        None => {
            return None;
        },
    };
    if i1 < v.len() && v[i1] == 93 {
        let empty: Vec<Bbox> = Vec::new();
        proof {
            assert(empty@.map_values(|b: Bbox| b@) =~= Seq::<BboxV>::empty());
        }
        return Some((empty, i1 + 1));
    }
    let (bs, j) = match parse_bbox_seq(v, i1) {
        Some(t) => t,
        None => {
            return None;
        },
    };
    let k = match eat_byte(v, j, 93) {
        Some(t) => t,
        None => {
            return None;
        },
    };
    Some((bs, k))
}

/// Consume a rectangle list or `null` at position `i` of `v`.
pub fn parse_opt_bboxes(v: &Vec<u8>, i: usize) -> (r: Option<(Option<Vec<Bbox>>, usize)>)
    ensures
        match r {
            Some(t) => sp_opt_bboxes(v@, i as int) == Some(
                (
                    match t.0 {
                        Some(bs) => Some(bs@.map_values(|b: Bbox| b@)),
                        None => None,
                    },
                    t.1 as int,
                ),
            ) && i < t.1 <= v@.len(),
            None => sp_opt_bboxes(v@, i as int) is None,
        },
{
    if i < v.len() && v[i] == 91 {
        match parse_bboxes(v, i) {
            Some((bs, j)) => Some((Some(bs), j)),
            None => None,
        }
    } else {
        let l = lit_null_vec();
        match eat_lit(v, i, &l) {
            Some(j) => Some((None, j)),
            None => None,
        }
    }
}

/// Consume one record object at position `i` of `v`.
#[verifier::rlimit(80)]
pub fn parse_frame(v: &Vec<u8>, i: usize) -> (r: Option<(ExportFrame, usize)>)
    ensures
        match r {
            Some(t) => sp_frame(v@, i as int) == Some((t.0@, t.1 as int)) && i < t.1 <= v@.len(),
            None => sp_frame(v@, i as int) is None,
        },
{
    let l = lit_key_file_vec();
    let i1 = match eat_lit(v, i, &l) {
        Some(j) => j,
        None => {
            return None;
        },
    };
    let (file, i2) = match parse_string(v, i1) {
        Some(t) => t,
        None => {
            return None;
        },
    };
    let l = lit_key_frame_index_vec();
    let i3 = match eat_lit(v, i2, &l) {
        Some(j) => j,
        None => {
            return None;
        },
    };
    let (frame_index, i4) = match parse_usize(v, i3) {
        Some(t) => t,
        None => {
            return None;
        },
    };
    let l = lit_key_shoot_time_vec();
    let i5 = match eat_lit(v, i4, &l) {
        Some(j) => j,
        None => {
            return None;
        },
    };
    let (shoot_time, i6) = match parse_opt_string(v, i5) {
        Some(t) => t,
        None => {
            return None;
        },
    };
    let l = lit_key_total_frames_vec();
    let i7 = match eat_lit(v, i6, &l) {
        Some(j) => j,
        None => {
            return None;
        },
    };
    let (total_frames, i8) = match parse_usize(v, i7) {
        Some(t) => t,
        None => {
            return None;
        },
    };
    let l = lit_key_bboxes_vec();
    let i9 = match eat_lit(v, i8, &l) {
        Some(j) => j,
        None => {
            return None;
        },
    };
    let (bboxes, i10) = match parse_opt_bboxes(v, i9) {
        Some(t) => t,
        None => {
            return None;
        },
    };
    let l = lit_key_label_vec();
    let i11 = match eat_lit(v, i10, &l) {
        Some(j) => j,
        None => {
            return None;
        },
    };
    let (label, i12) = match parse_opt_string(v, i11) {
        Some(t) => t,
        None => {
            return None;
        },
    };
    let l = lit_key_error_vec();
    let i13 = match eat_lit(v, i12, &l) {
        Some(j) => j,
        None => {
            return None;
        },
    };
    let (error, i14) = match parse_opt_string(v, i13) {
        Some(t) => t,
        None => {
            return None;
        },
    };
    let i15 = match eat_byte(v, i14, 125) {
        Some(j) => j,
        None => {
            return None;
        },
    };
    Some((ExportFrame { file, frame_index, shoot_time, total_frames, bboxes, label, error }, i15))
}

/// Consume one or more comma-separated record objects.
pub fn parse_frame_seq(v: &Vec<u8>, i: usize) -> (r: Option<(Vec<ExportFrame>, usize)>)
    ensures
        match r {
            Some(t) => sp_frame_seq(v@, i as int) == Some((frames_view(t.0@), t.1 as int)) && i
                < t.1 <= v@.len(),
            None => sp_frame_seq(v@, i as int) is None,
        },
{
    if i > v.len() {
        return None;
    }
    let mut built: Vec<ExportFrame> = Vec::new();
    let mut cur: usize = i;
    loop
        invariant
            i <= cur <= v@.len(),
            v@.len() == v.len(),
            sp_frame_seq(v@, i as int) == (match sp_frame_seq(v@, cur as int) {
                Some(r) => Some((frames_view(built@) + r.0, r.1)),
                None => None,
            }),
        decreases v@.len() - cur,
    {
        let ghost old_built = frames_view(built@);
        let (f, j) = match parse_frame(v, cur) {
            Some(t) => t,
            None => {
                return None;
            },
        };
        built.push(f);
        proof {
            assert(frames_view(built@) =~= old_built.push(built@.last()@));
        }
        if j < v.len() && v[j] == 44 {
            proof {
                match sp_frame_seq(v@, j as int + 1) {
                    Some(r) => {
                        assert(sp_frame_seq(v@, cur as int) == Some((seq![f@] + r.0, r.1)));
                        assert(old_built + (seq![f@] + r.0) =~= frames_view(built@) + r.0);
                    },
                    None => {
                        assert(sp_frame_seq(v@, cur as int) is None);
                    },
                }
            }
            cur = j + 1;
        } else {
            proof {
                assert(sp_frame_seq(v@, cur as int) == Some((seq![f@], j as int)));
                assert(old_built + seq![f@] =~= frames_view(built@));
            }
            return Some((built, j));
        }
    }
}

/// Read a whole artifact text back into its record sequence.
pub fn parse_export_json(v: &Vec<u8>) -> (r: Option<Vec<ExportFrame>>)
    ensures
        match r {
            Some(fr) => sp_doc(v@) == Some(frames_view(fr@)),
            None => sp_doc(v@) is None,
        },
{
    let i1 = match eat_byte(v, 0, 91) {
        Some(j) => j,
        None => {
            return None;
        },
    };
    if i1 < v.len() && v[i1] == 93 {
        if i1 + 1 == v.len() {
            let empty: Vec<ExportFrame> = Vec::new();
            proof {
                assert(frames_view(empty@) =~= Seq::<ExportFrameV>::empty());
            }
            return Some(empty);
        } else {
            return None;
        }
    }
    let (fs, j) = match parse_frame_seq(v, i1) {
        Some(t) => t,
        None => {
            return None;
        },
    };
    let k = match eat_byte(v, j, 93) {
        Some(t) => t,
        None => {
            return None;
        },
    };
    if k == v.len() {
        Some(fs)
    } else {
        None
    }
}


// ---------------------------------------------------------------------------
// The reader inverts the writer.
pub(crate) proof fn lemma_concat_split(s: Seq<u8>, i: int, a: Seq<u8>, b: Seq<u8>)
    requires
        0 <= i,
        i + a.len() + b.len() <= s.len(),
        s.subrange(i, i + a.len() + b.len()) == a + b,
    ensures
        s.subrange(i, i + a.len()) == a,
        s.subrange(i + a.len(), i + a.len() + b.len()) == b,
{
    assert forall|k: int| 0 <= k < a.len() implies s[i + k] == a[k] by {
        assert(s.subrange(i, i + a.len() + b.len())[k] == s[i + k]);
        assert((a + b)[k] == a[k]);
    }
    assert(s.subrange(i, i + a.len()) =~= a);
    assert forall|k: int| 0 <= k < b.len() implies s[i + a.len() + k] == b[k] by {
        assert(s.subrange(i, i + a.len() + b.len())[a.len() + k] == s[i + a.len() + k]);
        assert((a + b)[a.len() + k] == b[k]);
    }
    assert(s.subrange(i + a.len(), i + a.len() + b.len()) =~= b);
}

proof fn lemma_string_body_rt(t: Seq<u8>, s: Seq<u8>, i: int)
    requires
        0 <= i,
        i + escape_bytes(t).len() + 1 <= s.len(),
        s.subrange(i, i + escape_bytes(t).len() + 1) == escape_bytes(t) + seq![34u8],
    ensures
        sp_string_body(s, i) == Some((t, i + escape_bytes(t).len() + 1)),
    decreases t.len(),
{
    if t.len() == 0 {
        assert(escape_bytes(t) + seq![34u8] =~= seq![34u8]);
        assert(s.subrange(i, i + 1)[0] == s[i]);
        assert(s[i] == 34);
        assert(sp_string_body(s, i) == Some((Seq::<u8>::empty(), i + 1)));
        assert(Seq::<u8>::empty() =~= t);
    } else {
        let e0 = escaped_byte(t[0]);
        let rest = escape_bytes(t.skip(1)) + seq![34u8];
        assert(escape_bytes(t) == e0 + escape_bytes(t.skip(1)));
        assert(escape_bytes(t) + seq![34u8] =~= e0 + rest);
        lemma_concat_split(s, i, e0, rest);
        let i1 = i + e0.len();
        assert forall|k: int| 0 <= k < e0.len() implies s[i + k] == e0[k] by {
            assert(s.subrange(i, i1)[k] == s[i + k]);
        }
        lemma_string_body_rt(t.skip(1), s, i1);
        let endp = i1 + escape_bytes(t.skip(1)).len() + 1;
        assert(sp_string_body(s, i1) == Some((t.skip(1), endp)));
        let b0 = t[0];
        assert(s[i + 0] == e0[0]);
        if b0 == 34 || b0 == 92 || b0 == 10 || b0 == 13 || b0 == 9 {
            assert(e0.len() == 2);
            assert(s[i + 1] == e0[1]);
            assert(s[i] == 92);
            assert(unescaped_code(s[i + 1]) == Some(b0));
            assert(sp_string_body(s, i) == Some((seq![b0] + t.skip(1), endp)));
        } else {
            assert(e0.len() == 1);
            assert(s[i] == b0);
            assert(s[i] != 34 && s[i] != 92);
            assert(sp_string_body(s, i) == Some((seq![b0] + t.skip(1), endp)));
        }
        assert(seq![b0] + t.skip(1) =~= t);
        assert(endp == i + escape_bytes(t).len() + 1);
    }
}

proof fn lemma_string_rt(t: Seq<u8>, s: Seq<u8>, i: int)
    requires
        0 <= i,
        i + json_string(t).len() <= s.len(),
        s.subrange(i, i + json_string(t).len()) == json_string(t),
    ensures
        sp_string(s, i) == Some((t, i + json_string(t).len())),
{
    let rest = escape_bytes(t) + seq![34u8];
    assert(json_string(t) == seq![34u8] + rest);
    lemma_concat_split(s, i, seq![34u8], rest);
    assert(s.subrange(i, i + 1)[0] == s[i]);
    assert(s[i] == 34);
    lemma_string_body_rt(t, s, i + 1);
}

pub(crate) proof fn lemma_dec_bytes_digits(n: nat)
    ensures
        dec_bytes(n).len() >= 1,
        forall|k: int| 0 <= k < dec_bytes(n).len() ==> is_digit(#[trigger] dec_bytes(n)[k]),
    decreases n,
{
    if n < 10 {
    } else {
        lemma_dec_bytes_digits(n / 10);
        assert forall|k: int| 0 <= k < dec_bytes(n).len() implies is_digit(
            #[trigger] dec_bytes(n)[k],
        ) by {
            if k < dec_bytes(n / 10).len() {
                assert(dec_bytes(n)[k] == dec_bytes(n / 10)[k]);
            } else {
                assert(dec_bytes(n)[k] == (48 + n % 10) as u8);
            }
        }
    }
}

pub(crate) proof fn lemma_digits_end(s: Seq<u8>, i: int, e: int)
    requires
        0 <= i <= e <= s.len(),
        forall|k: int| i <= k < e ==> is_digit(#[trigger] s[k]),
        e == s.len() || !is_digit(s[e]),
    ensures
        sp_digits_end(s, i) == e,
    decreases e - i,
{
    if i == e {
    } else {
        assert(is_digit(s[i]));
        lemma_digits_end(s, i + 1, e);
    }
}

proof fn lemma_num_end(s: Seq<u8>, i: int, e: int)
    requires
        0 <= i <= e <= s.len(),
        forall|k: int| i <= k < e ==> is_num_byte(#[trigger] s[k]),
        e == s.len() || !is_num_byte(s[e]),
    ensures
        sp_num_end(s, i) == e,
    decreases e - i,
{
    if i == e {
    } else {
        assert(is_num_byte(s[i]));
        lemma_num_end(s, i + 1, e);
    }
}

pub(crate) proof fn lemma_dec_val(n: nat)
    ensures
        digits_val(dec_bytes(n)) == n,
    decreases n,
{
    if n < 10 {
        let d = dec_bytes(n);
        assert(d.len() == 1);
        assert(d.take(0) =~= Seq::<u8>::empty());
        assert(digits_val(Seq::<u8>::empty()) == 0);
        assert(d[0] == (48 + n) as u8);
        assert(digits_val(d) == digits_val(d.take(0)) * 10 + (d[0] - 48));
        assert((48 + n) as u8 - 48 == n);
    } else {
        lemma_dec_val(n / 10);
        let d = dec_bytes(n);
        let head = dec_bytes(n / 10);
        assert(d == head + seq![(48 + n % 10) as u8]);
        assert(d.take(d.len() - 1) =~= head);
        assert(d[d.len() - 1] == (48 + n % 10) as u8);
        assert(digits_val(d) == digits_val(head) * 10 + (n % 10));
        vstd::arithmetic::div_mod::lemma_fundamental_div_mod(n as int, 10);
    }
}

pub(crate) proof fn lemma_usize_rt(n: nat, s: Seq<u8>, i: int)
    requires
        n <= usize::MAX,
        0 <= i,
        i + dec_bytes(n).len() <= s.len(),
        s.subrange(i, i + dec_bytes(n).len()) == dec_bytes(n),
        i + dec_bytes(n).len() == s.len() || !is_digit(s[i + dec_bytes(n).len()]),
    ensures
        sp_usize(s, i) == Some((n as int, i + dec_bytes(n).len())),
{
    let w = dec_bytes(n);
    let e = i + w.len();
    lemma_dec_bytes_digits(n);
    assert forall|k: int| i <= k < e implies is_digit(#[trigger] s[k]) by {
        assert(s.subrange(i, e)[k - i] == s[k]);
        assert(w[k - i] == s[k]);
    }
    lemma_digits_end(s, i, e);
    lemma_dec_val(n);
}

proof fn lemma_num_rt(t: Seq<u8>, s: Seq<u8>, i: int)
    requires
        wf_num_token(t),
        0 <= i,
        i + t.len() <= s.len(),
        s.subrange(i, i + t.len()) == t,
        i + t.len() == s.len() || !is_num_byte(s[i + t.len()]),
    ensures
        sp_num(s, i) == Some((t, i + t.len())),
{
    let e = i + t.len();
    assert forall|k: int| i <= k < e implies is_num_byte(#[trigger] s[k]) by {
        assert(s.subrange(i, e)[k - i] == s[k]);
        assert(t[k - i] == s[k]);
    }
    lemma_num_end(s, i, e);
}


#[verifier::rlimit(100)]
proof fn lemma_bbox_rt(b: BboxV, s: Seq<u8>, i: int)
    requires
        wf_bbox(b),
        0 <= i,
        i + json_bbox(b).len() <= s.len(),
        s.subrange(i, i + json_bbox(b).len()) == json_bbox(b),
    ensures
        sp_bbox(s, i) == Some((b, i + json_bbox(b).len())),
{
    let r1 = b.x1 + (lit_key_y1() + (b.y1 + (lit_key_x2() + (b.x2 + (lit_key_y2() + (b.y2 + (
    lit_key_class() + (dec_bytes(b.class) + (lit_key_score() + (b.score + seq![125u8]))))))))));
    let r2 = lit_key_y1() + (b.y1 + (lit_key_x2() + (b.x2 + (lit_key_y2() + (b.y2 + (
    lit_key_class() + (dec_bytes(b.class) + (lit_key_score() + (b.score + seq![125u8])))))))));
    let r3 = b.y1 + (lit_key_x2() + (b.x2 + (lit_key_y2() + (b.y2 + (lit_key_class() + (dec_bytes(
        b.class,
    ) + (lit_key_score() + (b.score + seq![125u8]))))))));
    let r4 = lit_key_x2() + (b.x2 + (lit_key_y2() + (b.y2 + (lit_key_class() + (dec_bytes(b.class)
        + (lit_key_score() + (b.score + seq![125u8])))))));
    let r5 = b.x2 + (lit_key_y2() + (b.y2 + (lit_key_class() + (dec_bytes(b.class) + (
    lit_key_score() + (b.score + seq![125u8]))))));
    let r6 = lit_key_y2() + (b.y2 + (lit_key_class() + (dec_bytes(b.class) + (lit_key_score() + (
    b.score + seq![125u8])))));
    let r7 = b.y2 + (lit_key_class() + (dec_bytes(b.class) + (lit_key_score() + (b.score
        + seq![125u8]))));
    let r8 = lit_key_class() + (dec_bytes(b.class) + (lit_key_score() + (b.score + seq![125u8])));
    let r9 = dec_bytes(b.class) + (lit_key_score() + (b.score + seq![125u8]));
    let r10 = lit_key_score() + (b.score + seq![125u8]);
    let r11 = b.score + seq![125u8];
    let r12 = seq![125u8];
    assert(json_bbox(b) == lit_key_x1() + r1);
    lemma_concat_split(s, i, lit_key_x1(), r1);
    let i1 = i + lit_key_x1().len();
    lemma_concat_split(s, i1, b.x1, r2);
    let i2 = i1 + b.x1.len();
    assert(s[i2] == 44) by {
        assert(s.subrange(i2, i2 + r2.len())[0] == s[i2]);
    }
    lemma_num_rt(b.x1, s, i1);
    lemma_concat_split(s, i2, lit_key_y1(), r3);
    let i3 = i2 + lit_key_y1().len();
    lemma_concat_split(s, i3, b.y1, r4);
    let i4 = i3 + b.y1.len();
    assert(s[i4] == 44) by {
        assert(s.subrange(i4, i4 + r4.len())[0] == s[i4]);
    }
    lemma_num_rt(b.y1, s, i3);
    lemma_concat_split(s, i4, lit_key_x2(), r5);
    let i5 = i4 + lit_key_x2().len();
    lemma_concat_split(s, i5, b.x2, r6);
    let i6 = i5 + b.x2.len();
    assert(s[i6] == 44) by {
        assert(s.subrange(i6, i6 + r6.len())[0] == s[i6]);
    }
    lemma_num_rt(b.x2, s, i5);
    lemma_concat_split(s, i6, lit_key_y2(), r7);
    let i7 = i6 + lit_key_y2().len();
    lemma_concat_split(s, i7, b.y2, r8);
    let i8 = i7 + b.y2.len();
    assert(s[i8] == 44) by {
        assert(s.subrange(i8, i8 + r8.len())[0] == s[i8]);
    }
    lemma_num_rt(b.y2, s, i7);
    lemma_concat_split(s, i8, lit_key_class(), r9);
    let i9 = i8 + lit_key_class().len();
    lemma_concat_split(s, i9, dec_bytes(b.class), r10);
    let i10 = i9 + dec_bytes(b.class).len();
    assert(s[i10] == 44) by {
        assert(s.subrange(i10, i10 + r10.len())[0] == s[i10]);
    }
    lemma_usize_rt(b.class, s, i9);
    lemma_concat_split(s, i10, lit_key_score(), r11);
    let i11 = i10 + lit_key_score().len();
    lemma_concat_split(s, i11, b.score, r12);
    let i12 = i11 + b.score.len();
    assert(s[i12] == 125) by {
        assert(s.subrange(i12, i12 + r12.len())[0] == s[i12]);
    }
    lemma_num_rt(b.score, s, i11);
    let i13 = i12 + 1;
    assert(sp_bbox(s, i) == Some(
        (
            BboxV {
                x1: b.x1,
                y1: b.y1,
                x2: b.x2,
                y2: b.y2,
                class: ((b.class as int) as nat),
                score: b.score,
            },
            i13,
        ),
    ));
    assert(BboxV {
        x1: b.x1,
        y1: b.y1,
        x2: b.x2,
        y2: b.y2,
        class: ((b.class as int) as nat),
        score: b.score,
    } =~= b);
    assert(i13 == i + json_bbox(b).len());
}


proof fn lemma_bbox_shape(b: BboxV)
    ensures
        json_bbox(b).len() >= 6,
        json_bbox(b)[0] == 123,
{
    assert(json_bbox(b)[0] == lit_key_x1()[0]);
}

proof fn lemma_bbox_seq_rt(bs: Seq<BboxV>, s: Seq<u8>, i: int)
    requires
        bs.len() >= 1,
        forall|k: int| 0 <= k < bs.len() ==> wf_bbox(#[trigger] bs[k]),
        0 <= i,
        i + json_bbox_seq(bs).len() < s.len(),
        s.subrange(i, i + json_bbox_seq(bs).len()) == json_bbox_seq(bs),
        s[i + json_bbox_seq(bs).len()] != 44,
    ensures
        sp_bbox_seq(s, i) == Some((bs, i + json_bbox_seq(bs).len())),
    decreases bs.len(),
{
    lemma_bbox_shape(bs[0]);
    if bs.len() == 1 {
        assert(json_bbox_seq(bs) == json_bbox(bs[0]));
        lemma_bbox_rt(bs[0], s, i);
        let j = i + json_bbox(bs[0]).len();
        assert(s[j] != 44);
        assert(seq![bs[0]] =~= bs);
    } else {
        let w0 = json_bbox(bs[0]);
        let rest = seq![44u8] + json_bbox_seq(bs.skip(1));
        assert(json_bbox_seq(bs) == w0 + rest);
        lemma_concat_split(s, i, w0, rest);
        let j = i + w0.len();
        lemma_bbox_rt(bs[0], s, i);
        assert(s[j] == 44) by {
            assert(s.subrange(j, j + rest.len())[0] == s[j]);
        }
        lemma_concat_split(s, j, seq![44u8], json_bbox_seq(bs.skip(1)));
        assert(forall|k: int|
            0 <= k < bs.skip(1).len() ==> wf_bbox(#[trigger] bs.skip(1)[k]));
        lemma_bbox_seq_rt(bs.skip(1), s, j + 1);
        let endp = j + 1 + json_bbox_seq(bs.skip(1)).len();
        assert(sp_bbox_seq(s, j + 1) == Some((bs.skip(1), endp)));
        assert(sp_bbox_seq(s, i) == Some((seq![bs[0]] + bs.skip(1), endp)));
        assert(seq![bs[0]] + bs.skip(1) =~= bs);
        assert(endp == i + json_bbox_seq(bs).len());
    }
}

pub(crate) proof fn lemma_bboxes_rt(bs: Seq<BboxV>, s: Seq<u8>, i: int)
    requires
        forall|k: int| 0 <= k < bs.len() ==> wf_bbox(#[trigger] bs[k]),
        0 <= i,
        i + json_bboxes(bs).len() <= s.len(),
        s.subrange(i, i + json_bboxes(bs).len()) == json_bboxes(bs),
    ensures
        sp_bboxes(s, i) == Some((bs, i + json_bboxes(bs).len())),
{
    let inner = json_bbox_seq(bs) + seq![93u8];
    assert(json_bboxes(bs) == seq![91u8] + inner);
    lemma_concat_split(s, i, seq![91u8], inner);
    assert(s[i] == 91) by {
        assert(s.subrange(i, i + 1)[0] == s[i]);
    }
    let i1 = i + 1;
    lemma_concat_split(s, i1, json_bbox_seq(bs), seq![93u8]);
    let j = i1 + json_bbox_seq(bs).len();
    assert(s[j] == 93) by {
        assert(s.subrange(j, j + 1)[0] == s[j]);
    }
    if bs.len() == 0 {
        assert(json_bbox_seq(bs).len() == 0);
        assert(s[i1] == 93);
        assert(sp_bboxes(s, i) == Some((Seq::<BboxV>::empty(), i1 + 1)));
        assert(Seq::<BboxV>::empty() =~= bs);
    } else {
        lemma_bbox_shape(bs[0]);
        assert(s[i1] == 123) by {
            assert(s.subrange(i1, j)[0] == s[i1]);
            assert(json_bbox_seq(bs)[0] == json_bbox(bs[0])[0]);
        }
        lemma_bbox_seq_rt(bs, s, i1);
        assert(sp_lit(seq![93u8], s, j) == Some(j + 1)) by {
            assert(s.subrange(j, j + 1) =~= seq![93u8]);
        }
    }
}

proof fn lemma_opt_string_rt(o: Option<Seq<u8>>, s: Seq<u8>, i: int)
    requires
        0 <= i,
        i + json_opt_string(o).len() <= s.len(),
        s.subrange(i, i + json_opt_string(o).len()) == json_opt_string(o),
    ensures
        sp_opt_string(s, i) == Some((o, i + json_opt_string(o).len())),
{
    match o {
        Some(t) => {
            assert(s[i] == 34) by {
                assert(s.subrange(i, i + json_string(t).len())[0] == s[i]);
                assert(json_string(t)[0] == 34);
            }
            lemma_string_rt(t, s, i);
        },
        None => {
            assert(s[i] == 110) by {
                assert(s.subrange(i, i + 4)[0] == s[i]);
                assert(lit_null()[0] == 110);
            }
            assert(sp_lit(lit_null(), s, i) == Some(i + 4));
        },
    }
}

proof fn lemma_opt_bboxes_rt(o: Option<Seq<BboxV>>, s: Seq<u8>, i: int)
    requires
        match o {
            Some(bs) => forall|k: int| 0 <= k < bs.len() ==> wf_bbox(#[trigger] bs[k]),
            None => true,
        },
        0 <= i,
        i + json_opt_bboxes(o).len() <= s.len(),
        s.subrange(i, i + json_opt_bboxes(o).len()) == json_opt_bboxes(o),
    ensures
        sp_opt_bboxes(s, i) == Some((o, i + json_opt_bboxes(o).len())),
{
    match o {
        Some(bs) => {
            assert(s[i] == 91) by {
                assert(s.subrange(i, i + json_bboxes(bs).len())[0] == s[i]);
                assert(json_bboxes(bs)[0] == 91);
            }
            lemma_bboxes_rt(bs, s, i);
        },
        None => {
            assert(s[i] == 110) by {
                assert(s.subrange(i, i + 4)[0] == s[i]);
                assert(lit_null()[0] == 110);
            }
            assert(sp_lit(lit_null(), s, i) == Some(i + 4));
        },
    }
}

#[verifier::rlimit(100)]
proof fn lemma_frame_rt(f: ExportFrameV, s: Seq<u8>, i: int)
    requires
        wf_frame(f),
        0 <= i,
        i + json_frame(f).len() <= s.len(),
        s.subrange(i, i + json_frame(f).len()) == json_frame(f),
    ensures
        sp_frame(s, i) == Some((f, i + json_frame(f).len())),
{
    let head = json_frame_head(f);
    let mid = json_frame_mid(f);
    let tail = json_frame_tail(f);
    assert(json_frame(f) == head + (mid + tail));
    lemma_concat_split(s, i, head, mid + tail);
    lemma_concat_split(s, i + head.len(), mid, tail);
    // the head: file, frame index, shoot time
    let h1 = json_string(f.file) + (lit_key_frame_index() + (dec_bytes(f.frame_index) + (
    lit_key_shoot_time() + json_opt_string(f.shoot_time))));
    let h2 = lit_key_frame_index() + (dec_bytes(f.frame_index) + (lit_key_shoot_time()
        + json_opt_string(f.shoot_time)));
    let h3 = dec_bytes(f.frame_index) + (lit_key_shoot_time() + json_opt_string(f.shoot_time));
    let h4 = lit_key_shoot_time() + json_opt_string(f.shoot_time);
    assert(head == lit_key_file() + h1);
    lemma_concat_split(s, i, lit_key_file(), h1);
    let i1 = i + lit_key_file().len();
    lemma_concat_split(s, i1, json_string(f.file), h2);
    let i2 = i1 + json_string(f.file).len();
    lemma_string_rt(f.file, s, i1);
    lemma_concat_split(s, i2, lit_key_frame_index(), h3);
    let i3 = i2 + lit_key_frame_index().len();
    lemma_concat_split(s, i3, dec_bytes(f.frame_index), h4);
    let i4 = i3 + dec_bytes(f.frame_index).len();
    assert(s[i4] == 44) by {
        assert(s.subrange(i4, i4 + h4.len())[0] == s[i4]);
    }
    lemma_usize_rt(f.frame_index, s, i3);
    lemma_concat_split(s, i4, lit_key_shoot_time(), json_opt_string(f.shoot_time));
    let i5 = i4 + lit_key_shoot_time().len();
    lemma_opt_string_rt(f.shoot_time, s, i5);
    let i6 = i5 + json_opt_string(f.shoot_time).len();
    assert(i6 == i + head.len());
    // the middle: frame total and rectangles
    let m1 = dec_bytes(f.total_frames) + (lit_key_bboxes() + json_opt_bboxes(f.bboxes));
    let m2 = lit_key_bboxes() + json_opt_bboxes(f.bboxes);
    assert(mid == lit_key_total_frames() + m1);
    lemma_concat_split(s, i6, lit_key_total_frames(), m1);
    let i7 = i6 + lit_key_total_frames().len();
    lemma_concat_split(s, i7, dec_bytes(f.total_frames), m2);
    let i8 = i7 + dec_bytes(f.total_frames).len();
    assert(s[i8] == 44) by {
        assert(s.subrange(i8, i8 + m2.len())[0] == s[i8]);
    }
    lemma_usize_rt(f.total_frames, s, i7);
    lemma_concat_split(s, i8, lit_key_bboxes(), json_opt_bboxes(f.bboxes));
    let i9 = i8 + lit_key_bboxes().len();
    lemma_opt_bboxes_rt(f.bboxes, s, i9);
    let i10 = i9 + json_opt_bboxes(f.bboxes).len();
    assert(i10 == i + head.len() + mid.len());
    // the tail: label and error
    let t1 = json_opt_string(f.label) + (lit_key_error() + (json_opt_string(f.error)
        + seq![125u8]));
    let t2 = lit_key_error() + (json_opt_string(f.error) + seq![125u8]);
    let t3 = json_opt_string(f.error) + seq![125u8];
    assert(tail == lit_key_label() + t1);
    lemma_concat_split(s, i10, lit_key_label(), t1);
    let i11 = i10 + lit_key_label().len();
    lemma_concat_split(s, i11, json_opt_string(f.label), t2);
    let i12 = i11 + json_opt_string(f.label).len();
    lemma_opt_string_rt(f.label, s, i11);
    lemma_concat_split(s, i12, lit_key_error(), t3);
    let i13 = i12 + lit_key_error().len();
    lemma_concat_split(s, i13, json_opt_string(f.error), seq![125u8]);
    let i14 = i13 + json_opt_string(f.error).len();
    lemma_opt_string_rt(f.error, s, i13);
    assert(s[i14] == 125) by {
        assert(s.subrange(i14, i14 + 1)[0] == s[i14]);
    }
    let i15 = i14 + 1;
    assert(sp_frame(s, i) == Some(
        (
            ExportFrameV {
                file: f.file,
                frame_index: ((f.frame_index as int) as nat),
                shoot_time: f.shoot_time,
                total_frames: ((f.total_frames as int) as nat),
                bboxes: f.bboxes,
                label: f.label,
                error: f.error,
            },
            i15,
        ),
    ));
    assert(ExportFrameV {
        file: f.file,
        frame_index: ((f.frame_index as int) as nat),
        shoot_time: f.shoot_time,
        total_frames: ((f.total_frames as int) as nat),
        bboxes: f.bboxes,
        label: f.label,
        error: f.error,
    } =~= f);
    assert(i15 == i + json_frame(f).len());
}

proof fn lemma_frame_shape(f: ExportFrameV)
    ensures
        json_frame(f).len() >= 8,
        json_frame(f)[0] == 123,
{
    assert(json_frame(f)[0] == json_frame_head(f)[0]);
    assert(json_frame_head(f)[0] == lit_key_file()[0]);
}

#[verifier::rlimit(100)]
proof fn lemma_frame_seq_rt(fs: Seq<ExportFrameV>, s: Seq<u8>, i: int)
    requires
        fs.len() >= 1,
        wf_frames(fs),
        0 <= i,
        i + json_frame_seq(fs).len() < s.len(),
        s.subrange(i, i + json_frame_seq(fs).len()) == json_frame_seq(fs),
        s[i + json_frame_seq(fs).len()] != 44,
    ensures
        sp_frame_seq(s, i) == Some((fs, i + json_frame_seq(fs).len())),
    decreases fs.len(),
{
    lemma_frame_shape(fs[0]);
    assert(wf_frame(fs[0]));
    if fs.len() == 1 {
        assert(json_frame_seq(fs) == json_frame(fs[0]));
        lemma_frame_rt(fs[0], s, i);
        let j = i + json_frame(fs[0]).len();
        assert(s[j] != 44);
        assert(seq![fs[0]] =~= fs);
    } else {
        let w0 = json_frame(fs[0]);
        let rest = seq![44u8] + json_frame_seq(fs.skip(1));
        assert(json_frame_seq(fs) == w0 + rest);
        lemma_concat_split(s, i, w0, rest);
        let j = i + w0.len();
        lemma_frame_rt(fs[0], s, i);
        assert(s[j] == 44) by {
            assert(s.subrange(j, j + rest.len())[0] == s[j]);
        }
        lemma_concat_split(s, j, seq![44u8], json_frame_seq(fs.skip(1)));
        assert(wf_frames(fs.skip(1))) by {
            assert(forall|k: int|
                0 <= k < fs.skip(1).len() ==> wf_frame(#[trigger] fs.skip(1)[k]));
        }
        lemma_frame_seq_rt(fs.skip(1), s, j + 1);
        let endp = j + 1 + json_frame_seq(fs.skip(1)).len();
        assert(sp_frame_seq(s, j + 1) == Some((fs.skip(1), endp)));
        assert(sp_frame_seq(s, i) == Some((seq![fs[0]] + fs.skip(1), endp)));
        assert(seq![fs[0]] + fs.skip(1) =~= fs);
        assert(endp == i + json_frame_seq(fs).len());
    }
}

/// The reader inverts the writer: the canonical text of any sequence of
/// well-formed records reads back as exactly that sequence.
pub proof fn lemma_json_round_trip(fs: Seq<ExportFrameV>)
    requires
        wf_frames(fs),
    ensures
        sp_doc(json_doc(fs)) == Some(fs),
{
    let s = json_doc(fs);
    let inner = json_frame_seq(fs) + seq![93u8];
    assert(s == seq![91u8] + inner);
    assert(s.subrange(0, s.len() as int) =~= s);
    lemma_concat_split(s, 0, seq![91u8], inner);
    assert(s[0] == 91) by {
        assert(s.subrange(0, 1)[0] == s[0]);
    }
    assert(sp_lit(seq![91u8], s, 0) == Some(1int));
    lemma_concat_split(s, 1, json_frame_seq(fs), seq![93u8]);
    let j: int = 1 + json_frame_seq(fs).len() as int;
    assert(s[j] == 93) by {
        assert(s.subrange(j, j + 1)[0] == s[j]);
    }
    if fs.len() == 0 {
        assert(json_frame_seq(fs).len() == 0);
        assert(s[1] == 93);
        assert(s.len() == 2);
        assert(sp_doc(s) == Some(Seq::<ExportFrameV>::empty()));
        assert(Seq::<ExportFrameV>::empty() =~= fs);
    } else {
        lemma_frame_shape(fs[0]);
        assert(s[1] == 123) by {
            assert(s.subrange(1, j)[0] == s[1]);
            assert(json_frame_seq(fs)[0] == json_frame(fs[0])[0]);
        }
        lemma_frame_seq_rt(fs, s, 1);
        assert(sp_lit(seq![93u8], s, j) == Some(j + 1)) by {
            assert(s.subrange(j, j + 1) =~= seq![93u8]);
        }
        assert(j + 1 == s.len());
    }
}


// ---------------------------------------------------------------------------
// Whatever the reader accepts is well-formed.
proof fn lemma_num_end_bounds(s: Seq<u8>, i: int)
    requires
        0 <= i <= s.len(),
    ensures
        i <= sp_num_end(s, i) <= s.len(),
        forall|k: int| i <= k < sp_num_end(s, i) ==> is_num_byte(#[trigger] s[k]),
    decreases s.len() - i,
{
    if i < s.len() && is_num_byte(s[i]) {
        lemma_num_end_bounds(s, i + 1);
    }
}

proof fn lemma_digits_end_bounds(s: Seq<u8>, i: int)
    requires
        0 <= i <= s.len(),
    ensures
        i <= sp_digits_end(s, i) <= s.len(),
        forall|k: int| i <= k < sp_digits_end(s, i) ==> is_digit(#[trigger] s[k]),
    decreases s.len() - i,
{
    if i < s.len() && is_digit(s[i]) {
        lemma_digits_end_bounds(s, i + 1);
    }
}

proof fn lemma_digits_val_nonneg(t: Seq<u8>)
    requires
        forall|k: int| 0 <= k < t.len() ==> is_digit(#[trigger] t[k]),
    ensures
        digits_val(t) >= 0,
    decreases t.len(),
{
    if t.len() > 0 {
        assert(forall|k: int|
            0 <= k < t.take(t.len() - 1).len() ==> is_digit(#[trigger] t.take(t.len() - 1)[k]));
        lemma_digits_val_nonneg(t.take(t.len() - 1));
    }
}

proof fn lemma_sp_num_wf(s: Seq<u8>, i: int)
    ensures
        match sp_num(s, i) {
            Some((t, e)) => wf_num_token(t),
            None => true,
        },
{
    if 0 <= i <= s.len() {
        lemma_num_end_bounds(s, i);
        match sp_num(s, i) {
            Some((t, e)) => {
                assert(forall|k: int| 0 <= k < t.len() ==> t[k] == s[i + k]);
            },
            None => {},
        }
    } else if i > s.len() {
        assert(sp_num_end(s, i) == i);
    }
}

pub(crate) proof fn lemma_sp_usize_wf(s: Seq<u8>, i: int)
    ensures
        match sp_usize(s, i) {
            Some((n, e)) => 0 <= n <= usize::MAX,
            None => true,
        },
{
    if 0 <= i <= s.len() {
        lemma_digits_end_bounds(s, i);
        match sp_usize(s, i) {
            Some((n, e)) => {
                let t = s.subrange(i, sp_digits_end(s, i));
                assert(forall|k: int| 0 <= k < t.len() ==> t[k] == s[i + k]);
                lemma_digits_val_nonneg(t);
            },
            None => {},
        }
    } else if i > s.len() {
        assert(sp_digits_end(s, i) == i);
    }
}

proof fn lemma_sp_bbox_wf(s: Seq<u8>, i: int)
    ensures
        match sp_bbox(s, i) {
            Some((b, j)) => wf_bbox(b) && i < j <= s.len(),
            None => true,
        },
{
    match sp_bbox(s, i) {
        Some((b, j)) => {
            lemma_sp_num_wf(s, i + lit_key_x1().len());
            match sp_lit(lit_key_x1(), s, i) {
                Some(i1) => {
                    match sp_num(s, i1) {
                        Some((x1, i2)) => {
                            lemma_sp_num_wf(s, i1);
                            match sp_lit(lit_key_y1(), s, i2) {
                                Some(i3) => match sp_num(s, i3) {
                                    Some((y1, i4)) => {
                                        lemma_sp_num_wf(s, i3);
                                        match sp_lit(lit_key_x2(), s, i4) {
                                            Some(i5) => match sp_num(s, i5) {
                                                Some((x2, i6)) => {
                                                    lemma_sp_num_wf(s, i5);
                                                    match sp_lit(lit_key_y2(), s, i6) {
                                                        Some(i7) => match sp_num(s, i7) {
                                                            Some((y2, i8)) => {
                                                                lemma_sp_num_wf(s, i7);
                                                                match sp_lit(
                                                                    lit_key_class(),
                                                                    s,
                                                                    i8,
                                                                ) {
                                                                    Some(i9) => {
                                                                        lemma_sp_usize_wf(s, i9);
                                                                        match sp_usize(s, i9) {
                                                                            Some((_, i10)) => {
                                                                                match sp_lit(
                                                                                    lit_key_score(),
                                                                                    s,
                                                                                    i10,
                                                                                ) {
                                                                                    Some(i11) => {
                                                                                        lemma_sp_num_wf(
                                                                                            s,
                                                                                            i11,
                                                                                        );
                                                                                    },
                                                                                    None => {},
                                                                                }
                                                                            },
                                                                            None => {},
                                                                        }
                                                                    },
                                                                    None => {},
                                                                }
                                                            },
                                                            None => {},
                                                        },
                                                        None => {},
                                                    }
                                                },
                                                None => {},
                                            },
                                            None => {},
                                        }
                                    },
                                    None => {},
                                },
                                None => {},
                            }
                        },
                        None => {},
                    }
                },
                None => {},
            }
        },
        None => {},
    }
}

proof fn lemma_sp_bbox_seq_wf(s: Seq<u8>, i: int)
    ensures
        match sp_bbox_seq(s, i) {
            Some((bs, j)) => forall|k: int| 0 <= k < bs.len() ==> wf_bbox(#[trigger] bs[k]),
            None => true,
        },
    decreases s.len() - i,
{
    match sp_bbox_seq(s, i) {
        Some((bs, j)) => {
            lemma_sp_bbox_wf(s, i);
            match sp_bbox(s, i) {
                Some((b, jb)) => {
                    if jb < s.len() && s[jb] == 44 {
                        lemma_sp_bbox_seq_wf(s, jb + 1);
                    }
                },
                None => {},
            }
        },
        None => {},
    }
}

pub(crate) proof fn lemma_sp_bboxes_wf(s: Seq<u8>, i: int)
    ensures
        match sp_bboxes(s, i) {
            Some((bs, j)) => forall|k: int| 0 <= k < bs.len() ==> wf_bbox(#[trigger] bs[k]),
            None => true,
        },
{
    match sp_bboxes(s, i) {
        Some(_) => {
            match sp_lit(seq![91u8], s, i) {
                Some(i1) => {
                    if !(i1 < s.len() && s[i1] == 93) {
                        lemma_sp_bbox_seq_wf(s, i1);
                    }
                },
                None => {},
            }
        },
        None => {},
    }
}

proof fn lemma_sp_opt_bboxes_wf(s: Seq<u8>, i: int)
    ensures
        match sp_opt_bboxes(s, i) {
            Some((o, j)) => match o {
                Some(bs) => forall|k: int| 0 <= k < bs.len() ==> wf_bbox(#[trigger] bs[k]),
                None => true,
            },
            None => true,
        },
{
    if 0 <= i < s.len() && s[i] == 91 {
        lemma_sp_bboxes_wf(s, i);
    }
}

proof fn lemma_sp_frame_wf(s: Seq<u8>, i: int)
    ensures
        match sp_frame(s, i) {
            Some((f, j)) => wf_frame(f),
            None => true,
        },
{
    match sp_frame(s, i) {
        Some((f, j)) => {
            match sp_lit(lit_key_file(), s, i) {
                Some(i1) => match sp_string(s, i1) {
                    Some((_, i2)) => match sp_lit(lit_key_frame_index(), s, i2) {
                        Some(i3) => {
                            lemma_sp_usize_wf(s, i3);
                            match sp_usize(s, i3) {
                                Some((_, i4)) => match sp_lit(lit_key_shoot_time(), s, i4) {
                                    Some(i5) => match sp_opt_string(s, i5) {
                                        Some((_, i6)) => match sp_lit(
                                            lit_key_total_frames(),
                                            s,
                                            i6,
                                        ) {
                                            Some(i7) => {
                                                lemma_sp_usize_wf(s, i7);
                                                match sp_usize(s, i7) {
                                                    Some((_, i8)) => match sp_lit(
                                                        lit_key_bboxes(),
                                                        s,
                                                        i8,
                                                    ) {
                                                        Some(i9) => {
                                                            lemma_sp_opt_bboxes_wf(s, i9);
                                                        },
                                                        None => {},
                                                    },
                                                    None => {},
                                                }
                                            },
                                            None => {},
                                        },
                                        None => {},
                                    },
                                    None => {},
                                },
                                None => {},
                            }
                        },
                        None => {},
                    },
                    None => {},
                },
                None => {},
            }
        },
        None => {},
    }
}

proof fn lemma_sp_frame_seq_wf(s: Seq<u8>, i: int)
    ensures
        match sp_frame_seq(s, i) {
            Some((fs, j)) => wf_frames(fs),
            None => true,
        },
    decreases s.len() - i,
{
    match sp_frame_seq(s, i) {
        Some((fs, j)) => {
            lemma_sp_frame_wf(s, i);
            match sp_frame(s, i) {
                Some((f, jf)) => {
                    if jf < s.len() && s[jf] == 44 {
                        lemma_sp_frame_seq_wf(s, jf + 1);
                    }
                },
                None => {},
            }
        },
        None => {},
    }
}

/// Whatever the reader accepts is well-formed: every record of a parsed
/// artifact can be written back.
pub proof fn lemma_parsed_json_wf(s: Seq<u8>)
    ensures
        match sp_doc(s) {
            Some(fs) => wf_frames(fs),
            None => true,
        },
{
    match sp_doc(s) {
        Some(fs) => {
            match sp_lit(seq![91u8], s, 0) {
                Some(i1) => {
                    if !(i1 < s.len() && s[i1] == 93) {
                        lemma_sp_frame_seq_wf(s, i1);
                    }
                },
                None => {},
            }
        },
        None => {},
    }
}

} // verus!
