//! The tabular form of the export artifact: a header line and one line per
//! record, rectangle lists nested as artifact text inside one cell.

use vstd::prelude::*;
use crate::export::{Bbox, BboxV, ExportFrame, ExportFrameV};
use crate::export::{frames_view, wf_bbox, wf_frame, wf_frames};
use crate::json::{
    dec_bytes,
    json_bboxes,
    opt_view,
    push_bboxes,
    push_dec,
    sp_bboxes,
    parse_bboxes,
    sp_usize,
    parse_usize,
};

verus! {

// Structural bytes: 34 `"`  44 `,`  10 newline.
/// How one byte of a cell is stored: a quote is doubled, every other byte
/// stands as it is.
pub open spec fn csv_escaped_byte(b: u8) -> Seq<u8> {
    if b == 34 {
        seq![34u8, 34u8]
    } else {
        seq![b]
    }
}

/// The body of a quoted cell: each byte escaped.
pub open spec fn csv_escape(s: Seq<u8>) -> Seq<u8>
    decreases s.len(),
{
    if s.len() == 0 {
        Seq::empty()
    } else {
        csv_escaped_byte(s[0]) + csv_escape(s.skip(1))
    }
}

/// A quoted cell holding `t`.
pub open spec fn csv_quoted(t: Seq<u8>) -> Seq<u8> {
    seq![34u8] + (csv_escape(t) + seq![34u8])
}

/// An optional quoted cell: empty when absent.
pub open spec fn csv_opt_quoted(o: Option<Seq<u8>>) -> Seq<u8> {
    match o {
        Some(t) => csv_quoted(t),
        None => Seq::empty(),
    }
}

/// The rectangle cell: the bracketed artifact text of the rectangles inside
/// one quoted cell, or an empty cell.
pub open spec fn csv_bbox_cell(o: Option<Seq<BboxV>>) -> Seq<u8> {
    match o {
        Some(bs) => csv_quoted(json_bboxes(bs)),
        None => Seq::empty(),
    }
}

/// The first half of a record line: file, frame index, shoot time.
pub open spec fn csv_row_head(f: ExportFrameV) -> Seq<u8> {
    csv_quoted(f.file) + (seq![44u8] + (dec_bytes(f.frame_index) + (seq![44u8] + (csv_opt_quoted(
        f.shoot_time,
    ) + seq![44u8]))))
}

/// The second half of a record line: frame total, rectangles, label, error.
pub open spec fn csv_row_tail(f: ExportFrameV) -> Seq<u8> {
    dec_bytes(f.total_frames) + (seq![44u8] + (csv_bbox_cell(f.bboxes) + (seq![44u8] + (
    csv_opt_quoted(f.label) + (seq![44u8] + (csv_opt_quoted(f.error) + seq![10u8]))))))
}

/// One record line, newline included.
pub open spec fn csv_row(f: ExportFrameV) -> Seq<u8> {
    csv_row_head(f) + csv_row_tail(f)
}

/// All record lines of the artifact.
pub open spec fn csv_rows(fs: Seq<ExportFrameV>) -> Seq<u8>
    decreases fs.len(),
{
    if fs.len() == 0 {
        Seq::empty()
    } else {
        csv_row(fs[0]) + csv_rows(fs.skip(1))
    }
}

/// The header line naming the record fields, newline included.
pub open spec fn csv_header() -> Seq<u8> {
    seq![102u8, 105u8, 108u8, 101u8, 44u8, 102u8, 114u8, 97u8, 109u8, 101u8, 95u8, 105u8, 110u8,
        100u8, 101u8, 120u8, 44u8, 115u8, 104u8, 111u8, 111u8, 116u8, 95u8, 116u8, 105u8, 109u8,
        101u8, 44u8, 116u8, 111u8, 116u8, 97u8, 108u8, 95u8, 102u8, 114u8, 97u8, 109u8, 101u8,
        115u8, 44u8, 98u8, 98u8, 111u8, 120u8, 101u8, 115u8, 44u8, 108u8, 97u8, 98u8, 101u8,
        108u8, 44u8, 101u8, 114u8, 114u8, 111u8, 114u8, 10u8]
}

/// The whole tabular artifact.
pub open spec fn csv_doc(fs: Seq<ExportFrameV>) -> Seq<u8> {
    csv_header() + csv_rows(fs)
}

pub fn csv_header_vec() -> (r: Vec<u8>)
    ensures
        r@ == csv_header(),
{
    let mut r: Vec<u8> = Vec::new();
    r.push(102u8);
    r.push(105u8);
    r.push(108u8);
    r.push(101u8);
    r.push(44u8);
    r.push(102u8);
    r.push(114u8);
    r.push(97u8);
    r.push(109u8);
    r.push(101u8);
    r.push(95u8);
    r.push(105u8);
    r.push(110u8);
    r.push(100u8);
    r.push(101u8);
    r.push(120u8);
    r.push(44u8);
    r.push(115u8);
    r.push(104u8);
    r.push(111u8);
    r.push(111u8);
    r.push(116u8);
    r.push(95u8);
    r.push(116u8);
    r.push(105u8);
    r.push(109u8);
    r.push(101u8);
    r.push(44u8);
    r.push(116u8);
    r.push(111u8);
    r.push(116u8);
    r.push(97u8);
    r.push(108u8);
    r.push(95u8);
    r.push(102u8);
    r.push(114u8);
    r.push(97u8);
    r.push(109u8);
    r.push(101u8);
    r.push(115u8);
    r.push(44u8);
    r.push(98u8);
    r.push(98u8);
    r.push(111u8);
    r.push(120u8);
    r.push(101u8);
    r.push(115u8);
    r.push(44u8);
    r.push(108u8);
    r.push(97u8);
    r.push(98u8);
    r.push(101u8);
    r.push(108u8);
    r.push(44u8);
    r.push(101u8);
    r.push(114u8);
    r.push(114u8);
    r.push(111u8);
    r.push(114u8);
    r.push(10u8);
    proof {
        assert(r@ =~= csv_header());
    }
    r
}

proof fn lemma_csv_escape_snoc(s: Seq<u8>, x: u8)
    ensures
        csv_escape(s.push(x)) == csv_escape(s) + csv_escaped_byte(x),
    decreases s.len(),
{
    if s.len() == 0 {
        assert(s.push(x)[0] == x);
        assert(s.push(x).skip(1) =~= Seq::<u8>::empty());
        assert(csv_escape(s.push(x)) == csv_escaped_byte(x) + csv_escape(Seq::<u8>::empty()));
        assert(csv_escaped_byte(x) + Seq::<u8>::empty() =~= csv_escaped_byte(x));
        assert(csv_escape(s) + csv_escaped_byte(x) =~= csv_escaped_byte(x));
    } else {
        assert(s.push(x).skip(1) =~= s.skip(1).push(x));
        lemma_csv_escape_snoc(s.skip(1), x);
        assert(csv_escape(s.push(x)) == csv_escaped_byte(s[0]) + (csv_escape(s.skip(1))
            + csv_escaped_byte(x)));
        assert(csv_escaped_byte(s[0]) + (csv_escape(s.skip(1)) + csv_escaped_byte(x)) =~= (
        csv_escaped_byte(s[0]) + csv_escape(s.skip(1))) + csv_escaped_byte(x));
    }
}

/// Append the escaped body of `t` to `out`.
pub fn push_csv_escaped(out: &mut Vec<u8>, t: &Vec<u8>)
    ensures
        final(out)@ == old(out)@ + csv_escape(t@),
{
    let mut i: usize = 0;
    while i < t.len()
        invariant
            i <= t@.len(),
            out@ == old(out)@ + csv_escape(t@.take(i as int)),
        decreases t@.len() - i,
    {
        let b = t[i];
        if b == 34 {
            out.push(34);
            out.push(34);
        } else {
            out.push(b);
        }
        proof {
            assert(t@.take(i as int + 1) =~= t@.take(i as int).push(t@[i as int]));
            lemma_csv_escape_snoc(t@.take(i as int), t@[i as int]);
            assert(out@ =~= old(out)@ + csv_escape(t@.take(i as int + 1)));
        }
        i = i + 1;
    }
    proof {
        assert(t@.take(t@.len() as int) =~= t@);
    }
}

/// Append a quoted cell holding `t` to `out`.
pub fn push_csv_quoted(out: &mut Vec<u8>, t: &Vec<u8>)
    ensures
        final(out)@ == old(out)@ + csv_quoted(t@),
{
    out.push(34);
    push_csv_escaped(out, t);
    out.push(34);
    proof {
        assert(final(out)@ =~= old(out)@ + csv_quoted(t@));
    }
}

/// Append an optional quoted cell to `out`.
pub fn push_csv_opt(out: &mut Vec<u8>, o: &Option<Vec<u8>>)
    ensures
        final(out)@ == old(out)@ + csv_opt_quoted(opt_view(*o)),
{
    match o {
        Some(t) => push_csv_quoted(out, t),
        None => {
            proof {
                assert(old(out)@ + Seq::<u8>::empty() =~= old(out)@);
            }
        },
    }
}

/// Append the rectangle cell to `out`.
pub fn push_csv_bbox_cell(out: &mut Vec<u8>, o: &Option<Vec<Bbox>>)
    ensures
        final(out)@ == old(out)@ + csv_bbox_cell(
            match o {
                Some(bs) => Some(bs@.map_values(|b: Bbox| b@)),
                None => None,
            },
        ),
{
    match o {
        Some(bs) => {
            let mut cell: Vec<u8> = Vec::new();
            push_bboxes(&mut cell, bs);
            push_csv_quoted(out, &cell);
        },
        None => {
            proof {
                assert(old(out)@ + Seq::<u8>::empty() =~= old(out)@);
            }
        },
    }
}

/// Append one record line to `out`.
#[verifier::rlimit(100)]
pub fn push_csv_row(out: &mut Vec<u8>, f: &ExportFrame)
    ensures
        final(out)@ == old(out)@ + csv_row(f@),
{
    push_csv_quoted(out, &f.file);
    out.push(44);
    push_dec(out, f.frame_index);
    out.push(44);
    push_csv_opt(out, &f.shoot_time);
    out.push(44);
    proof {
        assert(out@ =~= old(out)@ + csv_row_head(f@));
    }
    push_dec(out, f.total_frames);
    out.push(44);
    push_csv_bbox_cell(out, &f.bboxes);
    out.push(44);
    push_csv_opt(out, &f.label);
    out.push(44);
    push_csv_opt(out, &f.error);
    out.push(10);
    proof {
        assert(final(out)@ =~= old(out)@ + csv_row(f@));
    }
}

proof fn lemma_csv_rows_snoc(fs: Seq<ExportFrameV>, f: ExportFrameV)
    ensures
        csv_rows(fs.push(f)) == csv_rows(fs) + csv_row(f),
    decreases fs.len(),
{
    if fs.len() == 0 {
        assert(fs.push(f)[0] == f);
        assert(fs.push(f).skip(1) =~= Seq::<ExportFrameV>::empty());
        assert(csv_rows(fs.push(f)) == csv_row(f) + csv_rows(Seq::<ExportFrameV>::empty()));
        assert(csv_row(f) + Seq::<u8>::empty() =~= csv_row(f));
        assert(csv_rows(fs) + csv_row(f) =~= csv_row(f));
    } else {
        assert(fs.push(f).skip(1) =~= fs.skip(1).push(f));
        lemma_csv_rows_snoc(fs.skip(1), f);
        assert(csv_rows(fs.push(f)) == csv_row(fs[0]) + (csv_rows(fs.skip(1)) + csv_row(f)));
        assert(csv_row(fs[0]) + (csv_rows(fs.skip(1)) + csv_row(f)) =~= (csv_row(fs[0]) + csv_rows(
            fs.skip(1),
        )) + csv_row(f));
    }
}

/// Serialize a sequence of records to the tabular artifact text.
pub fn write_csv(frames: &Vec<ExportFrame>) -> (r: Vec<u8>)
    ensures
        r@ == csv_doc(frames_view(frames@)),
{
    let ghost views = frames_view(frames@);
    let mut out: Vec<u8> = csv_header_vec();
    let mut i: usize = 0;
    while i < frames.len()
        invariant
            i <= frames@.len(),
            views == frames_view(frames@),
            out@ == csv_header() + csv_rows(views.take(i as int)),
        decreases frames@.len() - i,
    {
        push_csv_row(&mut out, &frames[i]);
        proof {
            assert(views.take(i as int + 1) =~= views.take(i as int).push(views[i as int]));
            lemma_csv_rows_snoc(views.take(i as int), views[i as int]);
            assert(views[i as int] == frames@[i as int]@);
            assert(out@ =~= csv_header() + csv_rows(views.take(i as int + 1)));
        }
        i = i + 1;
    }
    proof {
        assert(views.take(views.len() as int) =~= views);
        assert(out@ =~= csv_doc(views));
    }
    out
}

// ---------------------------------------------------------------------------
// Reading the tabular artifact back.
/// Consume a quoted cell body up to and including the closing quote,
/// yielding the unescaped bytes. A doubled quote stands for one quote byte.
pub open spec fn sp_csv_body(s: Seq<u8>, i: int) -> Option<(Seq<u8>, int)>
    decreases s.len() - i,
{
    if i < 0 || i >= s.len() {
        None
    } else if s[i] == 34 {
        if i + 1 < s.len() && s[i + 1] == 34 {
            match sp_csv_body(s, i + 2) {
                Some(r) => Some((seq![34u8] + r.0, r.1)),
                None => None,
            }
        } else {
            Some((Seq::empty(), i + 1))
        }
    } else {
        match sp_csv_body(s, i + 1) {
            Some(r) => Some((seq![s[i]] + r.0, r.1)),
            None => None,
        }
    }
}

/// Consume a quoted cell at position `i`.
pub open spec fn sp_csv_quoted(s: Seq<u8>, i: int) -> Option<(Seq<u8>, int)> {
    if 0 <= i < s.len() && s[i] == 34 {
        sp_csv_body(s, i + 1)
    } else {
        None
    }
}

/// Consume an optional quoted cell: an absent cell consumes nothing.
pub open spec fn sp_csv_opt(s: Seq<u8>, i: int) -> Option<(Option<Seq<u8>>, int)> {
    if 0 <= i < s.len() && s[i] == 34 {
        match sp_csv_quoted(s, i) {
            Some((t, j)) => Some((Some(t), j)),
            None => None,
        }
    } else {
        Some((None, i))
    }
}

/// Consume the rectangle cell: a quoted cell whose content is a complete
/// bracketed rectangle list, or an absent cell.
pub open spec fn sp_csv_bbox_cell(s: Seq<u8>, i: int) -> Option<(Option<Seq<BboxV>>, int)> {
    if 0 <= i < s.len() && s[i] == 34 {
        match sp_csv_quoted(s, i) {
            Some((t, j)) => match sp_bboxes(t, 0) {
                Some((bs, e)) => if e == t.len() {
                    Some((Some(bs), j))
                } else {
                    None
                },
                None => None,
            },
            None => None,
        }
    } else {
        Some((None, i))
    }
}

/// Consume the single byte `b` at position `i`.
pub open spec fn sp_csv_byte(b: u8, s: Seq<u8>, i: int) -> Option<int> {
    if 0 <= i < s.len() && s[i] == b {
        Some(i + 1)
    } else {
        None
    }
}

/// Consume the first half of a record line: file, frame position, shoot
/// time, each with its trailing comma.
pub open spec fn sp_csv_row_head(s: Seq<u8>, i: int) -> Option<((Seq<u8>, int, Option<Seq<u8>>), int)> {
    match sp_csv_quoted(s, i) {
        None => None,
        Some((file, i1)) => match sp_csv_byte(44, s, i1) {
            None => None,
            Some(i2) => match sp_usize(s, i2) {
                None => None,
                Some((frame_index, i3)) => match sp_csv_byte(44, s, i3) {
                    None => None,
                    Some(i4) => match sp_csv_opt(s, i4) {
                        None => None,
                        Some((shoot_time, i5)) => match sp_csv_byte(44, s, i5) {
                            None => None,
                            Some(i6) => Some(((file, frame_index, shoot_time), i6)),
                        },
                    },
                },
            },
        },
    }
}

/// Consume the second half of a record line: frame total, rectangles,
/// label, error, and the ending newline.
pub open spec fn sp_csv_row_tail(s: Seq<u8>, i: int) -> Option<
    ((int, Option<Seq<BboxV>>, Option<Seq<u8>>, Option<Seq<u8>>), int),
> {
    match sp_usize(s, i) {
        None => None,
        Some((total_frames, i7)) => match sp_csv_byte(44, s, i7) {
            None => None,
            Some(i8) => match sp_csv_bbox_cell(s, i8) {
                None => None,
                Some((bboxes, i9)) => match sp_csv_byte(44, s, i9) {
                    None => None,
                    Some(i10) => match sp_csv_opt(s, i10) {
                        None => None,
                        Some((label, i11)) => match sp_csv_byte(44, s, i11) {
                            None => None,
                            Some(i12) => match sp_csv_opt(s, i12) {
                                None => None,
                                Some((error, i13)) => match sp_csv_byte(10, s, i13) {
                                    None => None,
                                    Some(i14) => Some(((total_frames, bboxes, label, error), i14)),
                                },
                            },
                        },
                    },
                },
            },
        },
    }
}

/// Consume one record line.
pub open spec fn sp_csv_row(s: Seq<u8>, i: int) -> Option<(ExportFrameV, int)> {
    match sp_csv_row_head(s, i) {
        None => None,
        Some(((file, frame_index, shoot_time), ih)) => match sp_csv_row_tail(s, ih) {
            None => None,
            Some(((total_frames, bboxes, label, error), it)) => Some(
                (
                    ExportFrameV {
                        file,
                        frame_index: frame_index as nat,
                        shoot_time,
                        total_frames: total_frames as nat,
                        bboxes,
                        label,
                        error,
                    },
                    it,
                ),
            ),
        },
    }
}

/// Consume record lines until the end of the text.
pub open spec fn sp_csv_rows(s: Seq<u8>, i: int) -> Option<(Seq<ExportFrameV>, int)>
    decreases s.len() - i,
{
    if i == s.len() {
        Some((Seq::empty(), i))
    } else {
        match sp_csv_row(s, i) {
            None => None,
            Some((f, j)) => if i < j <= s.len() {
                match sp_csv_rows(s, j) {
                    Some(r) => Some((seq![f] + r.0, r.1)),
                    None => None,
                }
            } else {
                None
            },
        }
    }
}

/// Read a whole tabular artifact text back into its record sequence.
pub open spec fn sp_csv_doc(s: Seq<u8>) -> Option<Seq<ExportFrameV>> {
    if csv_header().len() <= s.len() && s.subrange(0, csv_header().len() as int) == csv_header() {
        match sp_csv_rows(s, csv_header().len() as int) {
            Some((fs, j)) => if j == s.len() {
                Some(fs)
            } else {
                None
            },
            None => None,
        }
    } else {
        None
    }
}


/// Consume a quoted cell at position `i` of `v`, yielding its bytes.
pub fn parse_csv_quoted(v: &Vec<u8>, i: usize) -> (r: Option<(Vec<u8>, usize)>)
    ensures
        match r {
            Some(t) => sp_csv_quoted(v@, i as int) == Some((t.0@, t.1 as int)) && i < t.1
                <= v@.len(),
            None => sp_csv_quoted(v@, i as int) is None,
        },
{
    if i >= v.len() || v[i] != 34 {
        return None;
    }
    let mut cur: usize = i + 1;
    let mut t: Vec<u8> = Vec::new();
    loop
        invariant
            i + 1 <= cur <= v@.len(),
            v@.len() == v.len(),
            sp_csv_body(v@, i as int + 1) == (match sp_csv_body(v@, cur as int) {
                Some(r) => Some((t@ + r.0, r.1)),
                None => None,
            }),
            v@[i as int] == 34,
            i < v@.len(),
        decreases v@.len() - cur,
    {
        if cur >= v.len() {
            return None;
        }
        let b = v[cur];
        if b == 34 {
            if cur + 1 < v.len() && v[cur + 1] == 34 {
                let ghost old_t = t@;
                t.push(34);
                proof {
                    assert(sp_csv_body(v@, cur as int) == (match sp_csv_body(v@, cur as int + 2) {
                        Some(r) => Some((seq![34u8] + r.0, r.1)),
                        None => None,
                    }));
                    match sp_csv_body(v@, cur as int + 2) {
                        Some(r) => {
                            assert(old_t + (seq![34u8] + r.0) =~= t@ + r.0);
                        },
                        None => {},
                    }
                }
                cur = cur + 2;
            } else {
                proof {
                    assert(sp_csv_body(v@, cur as int) == Some(
                        (Seq::<u8>::empty(), cur as int + 1),
                    ));
                    assert(t@ + Seq::<u8>::empty() =~= t@);
                }
                return Some((t, cur + 1));
            }
        } else {
            let ghost old_t = t@;
            t.push(b);
            proof {
                assert(sp_csv_body(v@, cur as int) == (match sp_csv_body(v@, cur as int + 1) {
                    Some(r) => Some((seq![b] + r.0, r.1)),
                    None => None,
                }));
                match sp_csv_body(v@, cur as int + 1) {
                    Some(r) => {
                        assert(old_t + (seq![b] + r.0) =~= t@ + r.0);
                    },
                    None => {},
                }
            }
            cur = cur + 1;
        }
    }
}

/// Consume an optional quoted cell at position `i` of `v`.
pub fn parse_csv_opt(v: &Vec<u8>, i: usize) -> (r: Option<(Option<Vec<u8>>, usize)>)
    requires
        i <= v@.len(),
    ensures
        match r {
            Some(t) => sp_csv_opt(v@, i as int) == Some((opt_view(t.0), t.1 as int)) && i <= t.1
                <= v@.len(),
            None => sp_csv_opt(v@, i as int) is None,
        },
{
    if i < v.len() && v[i] == 34 {
        match parse_csv_quoted(v, i) {
            Some((t, j)) => Some((Some(t), j)),
            None => None,
        }
    } else {
        Some((None, i))
    }
}

/// Consume the rectangle cell at position `i` of `v`.
pub fn parse_csv_bbox_cell(v: &Vec<u8>, i: usize) -> (r: Option<(Option<Vec<Bbox>>, usize)>)
    requires
        i <= v@.len(),
    ensures
        match r {
            Some(t) => sp_csv_bbox_cell(v@, i as int) == Some(
                (
                    match t.0 {
                        Some(bs) => Some(bs@.map_values(|b: Bbox| b@)),
                        None => None,
                    },
                    t.1 as int,
                ),
            ) && i <= t.1 <= v@.len(),
            None => sp_csv_bbox_cell(v@, i as int) is None,
        },
{
    if i < v.len() && v[i] == 34 {
        match parse_csv_quoted(v, i) {
            Some((t, j)) => {
                match parse_bboxes(&t, 0) {
                    Some((bs, e)) => {
                        if e == t.len() {
                            Some((Some(bs), j))
                        } else {
                            None
                        }
                    },
                    None => None,
                }
            },
            None => None,
        }
    } else {
        Some((None, i))
    }
}

/// Consume the single byte `b` at position `i` of `v`.
pub fn eat_csv_byte(v: &Vec<u8>, i: usize, b: u8) -> (r: Option<usize>)
    ensures
        match r {
            Some(j) => sp_csv_byte(b, v@, i as int) == Some(j as int) && i < j <= v@.len(),
            None => sp_csv_byte(b, v@, i as int) is None,
        },
{
    if i < v.len() && v[i] == b {
        Some(i + 1)
    } else {
        None
    }
}

/// Consume one record line at position `i` of `v`.
#[verifier::rlimit(80)]
pub fn parse_csv_row(v: &Vec<u8>, i: usize) -> (r: Option<(ExportFrame, usize)>)
    ensures
        match r {
            Some(t) => sp_csv_row(v@, i as int) == Some((t.0@, t.1 as int)) && i < t.1 <= v@.len(),
            None => sp_csv_row(v@, i as int) is None,
        },
{
    let (file, i1) = match parse_csv_quoted(v, i) {
        Some(t) => t,
        None => {
            return None;
        },
    };
    let i2 = match eat_csv_byte(v, i1, 44) {
        Some(j) => j,
        None => {
            return None;
        },
    };
    let (frame_index, i3) = match parse_usize(v, i2) {
        Some(t) => t,
        None => {
            return None;
        },
    };
    let i4 = match eat_csv_byte(v, i3, 44) {
        Some(j) => j,
        None => {
            return None;
        },
    };
    let (shoot_time, i5) = match parse_csv_opt(v, i4) {
        Some(t) => t,
        None => {
            return None;
        },
    };
    let i6 = match eat_csv_byte(v, i5, 44) {
        Some(j) => j,
        None => {
            return None;
        },
    };
    let (total_frames, i7) = match parse_usize(v, i6) {
        Some(t) => t,
        None => {
            return None;
        },
    };
    let i8 = match eat_csv_byte(v, i7, 44) {
        Some(j) => j,
        None => {
            return None;
        },
    };
    let (bboxes, i9) = match parse_csv_bbox_cell(v, i8) {
        Some(t) => t,
        None => {
            return None;
        },
    };
    let i10 = match eat_csv_byte(v, i9, 44) {
        Some(j) => j,
        None => {
            return None;
        },
    };
    let (label, i11) = match parse_csv_opt(v, i10) {
        Some(t) => t,
        None => {
            return None;
        },
    };
    let i12 = match eat_csv_byte(v, i11, 44) {
        Some(j) => j,
        None => {
            return None;
        },
    };
    let (error, i13) = match parse_csv_opt(v, i12) {
        Some(t) => t,
        None => {
            return None;
        },
    };
    let i14 = match eat_csv_byte(v, i13, 10) {
        Some(j) => j,
        None => {
            return None;
        },
    };
    Some((ExportFrame { file, frame_index, shoot_time, total_frames, bboxes, label, error }, i14))
}

/// Read a whole tabular artifact text back into its record sequence.
pub fn parse_export_csv(v: &Vec<u8>) -> (r: Option<Vec<ExportFrame>>)
    ensures
        match r {
            Some(fr) => sp_csv_doc(v@) == Some(frames_view(fr@)),
            None => sp_csv_doc(v@) is None,
        },
{
    let h = csv_header_vec();
    let start = match crate::json::eat_lit(v, 0, &h) {
        Some(j) => j,
        None => {
            proof {
                if csv_header().len() <= v@.len() && v@.subrange(0, csv_header().len() as int)
                    == csv_header() {
                    assert(crate::json::sp_lit(csv_header(), v@, 0) == Some(
                        csv_header().len() as int,
                    ));
                }
            }
            return None;
        },
    };
    let mut built: Vec<ExportFrame> = Vec::new();
    let mut cur: usize = start;
    loop
        invariant
            start <= cur <= v@.len(),
            v@.len() == v.len(),
            start == csv_header().len(),
            v@.subrange(0, csv_header().len() as int) == csv_header(),
            sp_csv_rows(v@, start as int) == (match sp_csv_rows(v@, cur as int) {
                Some(r) => Some((frames_view(built@) + r.0, r.1)),
                None => None,
            }),
        decreases v@.len() - cur,
    {
        if cur == v.len() {
            proof {
                assert(sp_csv_rows(v@, cur as int) == Some(
                    (Seq::<ExportFrameV>::empty(), cur as int),
                ));
                assert(frames_view(built@) + Seq::<ExportFrameV>::empty() =~= frames_view(built@));
            }
            return Some(built);
        }
        let ghost old_built = frames_view(built@);
        let (f, j) = match parse_csv_row(v, cur) {
            Some(t) => t,
            None => {
                return None;
            },
        };
        built.push(f);
        proof {
            assert(frames_view(built@) =~= old_built.push(built@.last()@));
            match sp_csv_rows(v@, j as int) {
                Some(r) => {
                    assert(sp_csv_rows(v@, cur as int) == Some((seq![f@] + r.0, r.1)));
                    assert(old_built + (seq![f@] + r.0) =~= frames_view(built@) + r.0);
                },
                None => {
                    assert(sp_csv_rows(v@, cur as int) is None);
                },
            }
        }
        cur = j;
    }
}


// ---------------------------------------------------------------------------
// The tabular reader inverts the tabular writer.
proof fn lemma_csv_body_rt(t: Seq<u8>, s: Seq<u8>, i: int)
    requires
        0 <= i,
        i + csv_escape(t).len() + 1 <= s.len(),
        s.subrange(i, i + csv_escape(t).len() + 1) == csv_escape(t) + seq![34u8],
        i + csv_escape(t).len() + 1 == s.len() || s[i + csv_escape(t).len() + 1] != 34,
    ensures
        sp_csv_body(s, i) == Some((t, i + csv_escape(t).len() + 1)),
    decreases t.len(),
{
    if t.len() == 0 {
        assert(csv_escape(t) + seq![34u8] =~= seq![34u8]);
        assert(s.subrange(i, i + 1)[0] == s[i]);
        assert(s[i] == 34);
        assert(sp_csv_body(s, i) == Some((Seq::<u8>::empty(), i + 1)));
        assert(Seq::<u8>::empty() =~= t);
    } else {
        let e0 = csv_escaped_byte(t[0]);
        let rest = csv_escape(t.skip(1)) + seq![34u8];
        assert(csv_escape(t) == e0 + csv_escape(t.skip(1)));
        assert(csv_escape(t) + seq![34u8] =~= e0 + rest);
        crate::json::lemma_concat_split(s, i, e0, rest);
        let i1 = i + e0.len();
        assert forall|k: int| 0 <= k < e0.len() implies s[i + k] == e0[k] by {
            assert(s.subrange(i, i1)[k] == s[i + k]);
        }
        lemma_csv_body_rt(t.skip(1), s, i1);
        let endp = i1 + csv_escape(t.skip(1)).len() + 1;
        assert(sp_csv_body(s, i1) == Some((t.skip(1), endp)));
        let b0 = t[0];
        assert(s[i + 0] == e0[0]);
        if b0 == 34 {
            assert(e0.len() == 2);
            assert(s[i + 1] == e0[1]);
            assert(s[i] == 34 && s[i + 1] == 34);
            assert(sp_csv_body(s, i) == Some((seq![34u8] + t.skip(1), endp)));
        } else {
            assert(e0.len() == 1);
            assert(s[i] == b0);
            assert(s[i] != 34);
            assert(sp_csv_body(s, i) == Some((seq![b0] + t.skip(1), endp)));
        }
        assert(seq![b0] + t.skip(1) =~= t);
        assert(endp == i + csv_escape(t).len() + 1);
    }
}

proof fn lemma_csv_quoted_rt(t: Seq<u8>, s: Seq<u8>, i: int)
    requires
        0 <= i,
        i + csv_quoted(t).len() <= s.len(),
        s.subrange(i, i + csv_quoted(t).len()) == csv_quoted(t),
        i + csv_quoted(t).len() == s.len() || s[i + csv_quoted(t).len()] != 34,
    ensures
        sp_csv_quoted(s, i) == Some((t, i + csv_quoted(t).len())),
{
    let rest = csv_escape(t) + seq![34u8];
    assert(csv_quoted(t) == seq![34u8] + rest);
    crate::json::lemma_concat_split(s, i, seq![34u8], rest);
    assert(s.subrange(i, i + 1)[0] == s[i]);
    assert(s[i] == 34);
    lemma_csv_body_rt(t, s, i + 1);
}

proof fn lemma_csv_opt_rt(o: Option<Seq<u8>>, s: Seq<u8>, i: int)
    requires
        0 <= i,
        i + csv_opt_quoted(o).len() <= s.len(),
        s.subrange(i, i + csv_opt_quoted(o).len()) == csv_opt_quoted(o),
        i + csv_opt_quoted(o).len() == s.len() || s[i + csv_opt_quoted(o).len()] != 34,
        o is None ==> i == s.len() || s[i] != 34,
    ensures
        sp_csv_opt(s, i) == Some((o, i + csv_opt_quoted(o).len())),
{
    match o {
        Some(t) => {
            assert(s[i] == 34) by {
                assert(s.subrange(i, i + csv_quoted(t).len())[0] == s[i]);
                assert(csv_quoted(t)[0] == 34);
            }
            lemma_csv_quoted_rt(t, s, i);
        },
        None => {
            assert(csv_opt_quoted(o).len() == 0);
        },
    }
}

proof fn lemma_csv_bbox_cell_rt(o: Option<Seq<BboxV>>, s: Seq<u8>, i: int)
    requires
        match o {
            Some(bs) => forall|k: int| 0 <= k < bs.len() ==> wf_bbox(#[trigger] bs[k]),
            None => true,
        },
        0 <= i,
        i + csv_bbox_cell(o).len() <= s.len(),
        s.subrange(i, i + csv_bbox_cell(o).len()) == csv_bbox_cell(o),
        i + csv_bbox_cell(o).len() == s.len() || s[i + csv_bbox_cell(o).len()] != 34,
        o is None ==> i == s.len() || s[i] != 34,
    ensures
        sp_csv_bbox_cell(s, i) == Some((o, i + csv_bbox_cell(o).len())),
{
    match o {
        Some(bs) => {
            let t = json_bboxes(bs);
            assert(s[i] == 34) by {
                assert(s.subrange(i, i + csv_quoted(t).len())[0] == s[i]);
                assert(csv_quoted(t)[0] == 34);
            }
            lemma_csv_quoted_rt(t, s, i);
            assert(t.subrange(0, t.len() as int) =~= t);
            crate::json::lemma_bboxes_rt(bs, t, 0);
        },
        None => {
            assert(csv_bbox_cell(o).len() == 0);
        },
    }
}

#[verifier::rlimit(100)]
#[verifier::spinoff_prover]
proof fn lemma_csv_row_head_rt(f: ExportFrameV, s: Seq<u8>, i: int)
    requires
        wf_frame(f),
        0 <= i,
        i + csv_row_head(f).len() <= s.len(),
        s.subrange(i, i + csv_row_head(f).len()) == csv_row_head(f),
    ensures
        sp_csv_row_head(s, i) == Some(
            ((f.file, f.frame_index as int, f.shoot_time), i + csv_row_head(f).len()),
        ),
{
    let h1 = seq![44u8] + (dec_bytes(f.frame_index) + (seq![44u8] + (csv_opt_quoted(f.shoot_time)
        + seq![44u8])));
    let h2 = dec_bytes(f.frame_index) + (seq![44u8] + (csv_opt_quoted(f.shoot_time) + seq![44u8]));
    let h3 = seq![44u8] + (csv_opt_quoted(f.shoot_time) + seq![44u8]);
    let h4 = csv_opt_quoted(f.shoot_time) + seq![44u8];
    assert(csv_row_head(f) == csv_quoted(f.file) + h1);
    crate::json::lemma_concat_split(s, i, csv_quoted(f.file), h1);
    let i1 = i + csv_quoted(f.file).len();
    assert(s[i1] == 44) by {
        assert(s.subrange(i1, i1 + h1.len())[0] == s[i1]);
    }
    lemma_csv_quoted_rt(f.file, s, i);
    crate::json::lemma_concat_split(s, i1, seq![44u8], h2);
    let i2 = i1 + 1;
    crate::json::lemma_concat_split(s, i2, dec_bytes(f.frame_index), h3);
    let i3 = i2 + dec_bytes(f.frame_index).len();
    assert(s[i3] == 44) by {
        assert(s.subrange(i3, i3 + h3.len())[0] == s[i3]);
    }
    crate::json::lemma_usize_rt(f.frame_index, s, i2);
    crate::json::lemma_concat_split(s, i3, seq![44u8], h4);
    let i4 = i3 + 1;
    crate::json::lemma_concat_split(s, i4, csv_opt_quoted(f.shoot_time), seq![44u8]);
    let i5 = i4 + csv_opt_quoted(f.shoot_time).len();
    assert(s[i5] == 44) by {
        assert(s.subrange(i5, i5 + 1)[0] == s[i5]);
    }
    lemma_csv_opt_rt(f.shoot_time, s, i4);
    assert(i5 + 1 == i + csv_row_head(f).len());
}

#[verifier::rlimit(100)]
#[verifier::spinoff_prover]
proof fn lemma_csv_row_tail_rt(f: ExportFrameV, s: Seq<u8>, i: int)
    requires
        wf_frame(f),
        0 <= i,
        i + csv_row_tail(f).len() <= s.len(),
        s.subrange(i, i + csv_row_tail(f).len()) == csv_row_tail(f),
    ensures
        sp_csv_row_tail(s, i) == Some(
            (
                (f.total_frames as int, f.bboxes, f.label, f.error),
                i + csv_row_tail(f).len(),
            ),
        ),
{
    let t1 = seq![44u8] + (csv_bbox_cell(f.bboxes) + (seq![44u8] + (csv_opt_quoted(f.label) + (
    seq![44u8] + (csv_opt_quoted(f.error) + seq![10u8])))));
    let t2 = csv_bbox_cell(f.bboxes) + (seq![44u8] + (csv_opt_quoted(f.label) + (seq![44u8] + (
    csv_opt_quoted(f.error) + seq![10u8]))));
    let t3 = seq![44u8] + (csv_opt_quoted(f.label) + (seq![44u8] + (csv_opt_quoted(f.error)
        + seq![10u8])));
    let t4 = csv_opt_quoted(f.label) + (seq![44u8] + (csv_opt_quoted(f.error) + seq![10u8]));
    let t5 = seq![44u8] + (csv_opt_quoted(f.error) + seq![10u8]);
    let t6 = csv_opt_quoted(f.error) + seq![10u8];
    assert(csv_row_tail(f) == dec_bytes(f.total_frames) + t1);
    crate::json::lemma_concat_split(s, i, dec_bytes(f.total_frames), t1);
    let i7 = i + dec_bytes(f.total_frames).len();
    assert(s[i7] == 44) by {
        assert(s.subrange(i7, i7 + t1.len())[0] == s[i7]);
    }
    crate::json::lemma_usize_rt(f.total_frames, s, i);
    crate::json::lemma_concat_split(s, i7, seq![44u8], t2);
    let i8 = i7 + 1;
    crate::json::lemma_concat_split(s, i8, csv_bbox_cell(f.bboxes), t3);
    let i9 = i8 + csv_bbox_cell(f.bboxes).len();
    assert(s[i9] == 44) by {
        assert(s.subrange(i9, i9 + t3.len())[0] == s[i9]);
    }
    lemma_csv_bbox_cell_rt(f.bboxes, s, i8);
    crate::json::lemma_concat_split(s, i9, seq![44u8], t4);
    let i10 = i9 + 1;
    crate::json::lemma_concat_split(s, i10, csv_opt_quoted(f.label), t5);
    let i11 = i10 + csv_opt_quoted(f.label).len();
    assert(s[i11] == 44) by {
        assert(s.subrange(i11, i11 + t5.len())[0] == s[i11]);
    }
    lemma_csv_opt_rt(f.label, s, i10);
    crate::json::lemma_concat_split(s, i11, seq![44u8], t6);
    let i12 = i11 + 1;
    crate::json::lemma_concat_split(s, i12, csv_opt_quoted(f.error), seq![10u8]);
    let i13 = i12 + csv_opt_quoted(f.error).len();
    assert(s[i13] == 10) by {
        assert(s.subrange(i13, i13 + 1)[0] == s[i13]);
    }
    lemma_csv_opt_rt(f.error, s, i12);
    assert(i13 + 1 == i + csv_row_tail(f).len());
}

#[verifier::rlimit(100)]
#[verifier::spinoff_prover]
proof fn lemma_csv_row_rt(f: ExportFrameV, s: Seq<u8>, i: int)
    requires
        wf_frame(f),
        0 <= i,
        i + csv_row(f).len() <= s.len(),
        s.subrange(i, i + csv_row(f).len()) == csv_row(f),
    ensures
        sp_csv_row(s, i) == Some((f, i + csv_row(f).len())),
{
    let head = csv_row_head(f);
    let tail = csv_row_tail(f);
    assert(csv_row(f) == head + tail);
    crate::json::lemma_concat_split(s, i, head, tail);
    lemma_csv_row_head_rt(f, s, i);
    lemma_csv_row_tail_rt(f, s, i + head.len());
    assert(sp_csv_row(s, i) == Some(
        (
            ExportFrameV {
                file: f.file,
                frame_index: ((f.frame_index as int) as nat),
                shoot_time: f.shoot_time,
                total_frames: ((f.total_frames as int) as nat),
                bboxes: f.bboxes,
                label: f.label,
                error: f.error,
            },
            i + csv_row(f).len(),
        ),
    ));
    assert(ExportFrameV {
        file: f.file,
        frame_index: ((f.frame_index as int) as nat),
        shoot_time: f.shoot_time,
        total_frames: ((f.total_frames as int) as nat),
        bboxes: f.bboxes,
        label: f.label,
        error: f.error,
    } =~= f);
}

proof fn lemma_csv_row_shape(f: ExportFrameV)
    ensures
        csv_row(f).len() >= 2,
{
    assert(csv_row(f).len() >= csv_row_head(f).len());
}

#[verifier::rlimit(100)]
#[verifier::spinoff_prover]
proof fn lemma_csv_rows_rt(fs: Seq<ExportFrameV>, s: Seq<u8>, i: int)
    requires
        wf_frames(fs),
        0 <= i,
        i + csv_rows(fs).len() == s.len(),
        s.subrange(i, s.len() as int) == csv_rows(fs),
    ensures
        sp_csv_rows(s, i) == Some((fs, s.len() as int)),
    decreases fs.len(),
{
    if fs.len() == 0 {
        assert(i == s.len());
        assert(Seq::<ExportFrameV>::empty() =~= fs);
    } else {
        let w0 = csv_row(fs[0]);
        let rest = csv_rows(fs.skip(1));
        assert(csv_rows(fs) == w0 + rest);
        crate::json::lemma_concat_split(s, i, w0, rest);
        let j = i + w0.len();
        assert(wf_frame(fs[0])) by {
            assert(fs[0] == fs[0]);
        }
        lemma_csv_row_rt(fs[0], s, i);
        lemma_csv_row_shape(fs[0]);
        assert(wf_frames(fs.skip(1))) by {
            assert(forall|k: int|
                0 <= k < fs.skip(1).len() ==> wf_frame(#[trigger] fs.skip(1)[k]));
        }
        assert(s.subrange(j, s.len() as int) == rest);
        lemma_csv_rows_rt(fs.skip(1), s, j);
        assert(sp_csv_rows(s, i) == Some((seq![fs[0]] + fs.skip(1), s.len() as int)));
        assert(seq![fs[0]] + fs.skip(1) =~= fs);
    }
}

/// The tabular reader inverts the tabular writer: the tabular text of any
/// sequence of well-formed records reads back as exactly that sequence.
pub proof fn lemma_csv_round_trip(fs: Seq<ExportFrameV>)
    requires
        wf_frames(fs),
    ensures
        sp_csv_doc(csv_doc(fs)) == Some(fs),
{
    let s = csv_doc(fs);
    assert(s == csv_header() + csv_rows(fs));
    assert(s.subrange(0, s.len() as int) =~= s);
    crate::json::lemma_concat_split(s, 0, csv_header(), csv_rows(fs));
    let h = csv_header().len() as int;
    assert(s.subrange(h, s.len() as int) == csv_rows(fs));
    lemma_csv_rows_rt(fs, s, h);
}


// ---------------------------------------------------------------------------
// Whatever the tabular reader accepts is well-formed.
proof fn lemma_sp_csv_bbox_cell_wf(s: Seq<u8>, i: int)
    ensures
        match sp_csv_bbox_cell(s, i) {
            Some((o, j)) => match o {
                Some(bs) => forall|k: int| 0 <= k < bs.len() ==> wf_bbox(#[trigger] bs[k]),
                None => true,
            },
            None => true,
        },
{
    if 0 <= i < s.len() && s[i] == 34 {
        match sp_csv_quoted(s, i) {
            Some((t, j)) => {
                crate::json::lemma_sp_bboxes_wf(t, 0);
            },
            None => {},
        }
    }
}

proof fn lemma_sp_csv_row_wf(s: Seq<u8>, i: int)
    ensures
        match sp_csv_row(s, i) {
            Some((f, j)) => wf_frame(f),
            None => true,
        },
{
    match sp_csv_row(s, i) {
        Some((f, j)) => {
            match sp_csv_row_head(s, i) {
                Some((_, ih)) => {
                    match sp_csv_quoted(s, i) {
                        Some((_, i1)) => match sp_csv_byte(44, s, i1) {
                            Some(i2) => {
                                crate::json::lemma_sp_usize_wf(s, i2);
                            },
                            None => {},
                        },
                        None => {},
                    }
                    crate::json::lemma_sp_usize_wf(s, ih);
                    match sp_usize(s, ih) {
                        Some((_, i7)) => match sp_csv_byte(44, s, i7) {
                            Some(i8) => {
                                lemma_sp_csv_bbox_cell_wf(s, i8);
                            },
                            None => {},
                        },
                        None => {},
                    }
                },
                None => {},
            }
        },
        None => {},
    }
}

proof fn lemma_sp_csv_rows_wf(s: Seq<u8>, i: int)
    ensures
        match sp_csv_rows(s, i) {
            Some((fs, j)) => wf_frames(fs),
            None => true,
        },
    decreases s.len() - i,
{
    if i == s.len() {
    } else {
        match sp_csv_rows(s, i) {
            Some(_) => {
                lemma_sp_csv_row_wf(s, i);
                match sp_csv_row(s, i) {
                    Some((f, j)) => {
                        if i < j <= s.len() {
                            lemma_sp_csv_rows_wf(s, j);
                        }
                    },
                    None => {},
                }
            },
            None => {},
        }
    }
}

/// Whatever the tabular reader accepts is well-formed: every record of a
/// parsed tabular artifact can be written back.
pub proof fn lemma_parsed_csv_wf(s: Seq<u8>)
    ensures
        match sp_csv_doc(s) {
            Some(fs) => wf_frames(fs),
            None => true,
        },
{
    if csv_header().len() <= s.len() && s.subrange(0, csv_header().len() as int) == csv_header() {
        lemma_sp_csv_rows_wf(s, csv_header().len() as int);
    }
}

} // verus!
