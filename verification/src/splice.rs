//! Byte-range splicing of module sources: the primitive behind every
//! rewrite the bundle emitter makes to a module body.

use vstd::prelude::*;
use vstd::string::StringSliceAdditionalSpecFns;
use vstd::utf8::*;

verus! {

/// Replace the bytes `start..end` of a source with `text`.
#[derive(Debug, Clone)]
pub struct Edit {
    pub start: usize,
    pub end: usize,
    pub text: String,
}

impl Edit {
    /// The edit as plain values: the range and the UTF-8 bytes of the text.
    pub open spec fn model(self) -> (int, int, Seq<u8>) {
        (self.start as int, self.end as int, encode_utf8(self.text@))
    }
}

pub open spec fn edits_model(edits: Seq<Edit>) -> Seq<(int, int, Seq<u8>)> {
    edits.map_values(|e: Edit| e.model())
}

// ----- stable ordering by start offset -----

/// `x` inserted into `sorted` after every element whose start is at most
/// `x`'s: the step of a stable insertion sort.
pub open spec fn insert_by_start(x: (int, int, Seq<u8>), sorted: Seq<(int, int, Seq<u8>)>) -> Seq<(int, int, Seq<u8>)>
    decreases sorted.len(),
{
    if sorted.len() == 0 {
        seq![x]
    } else if x.0 < sorted.last().0 {
        insert_by_start(x, sorted.drop_last()).push(sorted.last())
    } else {
        sorted.push(x)
    }
}

/// The stable sort of `edits` by start offset: equal starts keep their
/// relative order.
pub open spec fn sort_by_start(edits: Seq<(int, int, Seq<u8>)>) -> Seq<(int, int, Seq<u8>)>
    decreases edits.len(),
{
    if edits.len() == 0 {
        edits
    } else {
        insert_by_start(edits.last(), sort_by_start(edits.drop_last()))
    }
}

/// Sorted by start offset.
pub open spec fn starts_nondecreasing(s: Seq<(int, int, Seq<u8>)>) -> bool {
    forall|i: int, j: int| 0 <= i < j < s.len() ==> s[i].0 <= s[j].0
}

proof fn lemma_insert_by_start(x: (int, int, Seq<u8>), sorted: Seq<(int, int, Seq<u8>)>, pos: int)
    requires
        0 <= pos <= sorted.len(),
        forall|i: int| 0 <= i < pos ==> sorted[i].0 <= x.0,
        forall|i: int| pos <= i < sorted.len() ==> x.0 < sorted[i].0,
    ensures
        insert_by_start(x, sorted) == sorted.take(pos).push(x) + sorted.skip(pos),
    decreases sorted.len(),
{
    if sorted.len() == 0 {
        assert(sorted.take(pos).push(x) + sorted.skip(pos) =~= seq![x]);
    } else if pos == sorted.len() {
        assert(sorted.take(pos) =~= sorted);
        assert(sorted.skip(pos) =~= Seq::<(int, int, Seq<u8>)>::empty());
        assert(sorted.push(x) + Seq::<(int, int, Seq<u8>)>::empty() =~= sorted.push(x));
    } else {
        let init = sorted.drop_last();
        lemma_insert_by_start(x, init, pos);
        assert(init.take(pos) =~= sorted.take(pos));
        assert((init.take(pos).push(x) + init.skip(pos)).push(sorted.last()) =~= sorted.take(pos).push(x) + sorted.skip(pos));
    }
}

/// Sorts `edits` stably by start offset.
pub fn sort_edits_by_start(edits: &Vec<Edit>) -> (sorted: Vec<Edit>)
    ensures
        edits_model(sorted@) == sort_by_start(edits_model(edits@)),
        starts_nondecreasing(edits_model(sorted@)),
{
    let ghost all = edits_model(edits@);
    let mut sorted: Vec<Edit> = Vec::new();
    let mut k: usize = 0;
    while k < edits.len()
        invariant
            all == edits_model(edits@),
            k <= edits@.len(),
            edits_model(sorted@) == sort_by_start(all.take(k as int)),
            starts_nondecreasing(edits_model(sorted@)),
        decreases edits@.len() - k,
    {
        let e = Edit { start: edits[k].start, end: edits[k].end, text: edits[k].text.clone() };
        let mut pos: usize = sorted.len();
        while pos > 0 && e.start < sorted[pos - 1].start
            invariant
                pos <= sorted@.len(),
                forall|i: int| pos <= i < sorted@.len() ==> e.start < sorted@[i].start,
            decreases pos,
        {
            pos -= 1;
        }
        let ghost before = edits_model(sorted@);
        proof {
            assert(e.model() == all[k as int]);
            assert forall|i: int| 0 <= i < pos implies before[i].0 <= e.model().0 by {
                assert(before[pos - 1].0 <= e.model().0);
                assert(before[i].0 <= before[pos - 1].0);
            }
            lemma_insert_by_start(e.model(), before, pos as int);
            assert(all.take(k + 1).drop_last() =~= all.take(k as int));
        }
        sorted.insert(pos, e);
        proof {
            assert(edits_model(sorted@) =~= before.take(pos as int).push(all[k as int]) + before.skip(pos as int));
            let after = edits_model(sorted@);
            assert forall|i: int, j: int| 0 <= i < j < after.len() implies after[i].0 <= after[j].0 by {
                if i < pos && j > pos {
                    assert(after[i] == before[i] && after[j] == before[j - 1]);
                } else if i < pos && j == pos {
                    assert(after[i] == before[i]);
                } else if i == pos {
                    assert(after[j] == before[j - 1]);
                } else if i < pos {
                    assert(after[i] == before[i] && after[j] == before[j]);
                } else {
                    assert(after[i] == before[i - 1] && after[j] == before[j - 1]);
                }
            }
        }
        k += 1;
    }
    proof {
        assert(all.take(k as int) =~= all);
    }
    sorted
}

// ----- splicing -----

/// The source `src` with each edit applied in order: the bytes between the
/// previous edit's end (`cursor`) and this edit's start are kept when the
/// start lies beyond the cursor and inside the source, then the edit's text
/// goes in and the cursor moves to its end; whatever follows the last
/// cursor is kept.
pub open spec fn splice_from(src: Seq<u8>, edits: Seq<(int, int, Seq<u8>)>, cursor: int) -> Seq<u8>
    decreases edits.len(),
{
    if edits.len() == 0 {
        if cursor < src.len() {
            src.subrange(cursor, src.len() as int)
        } else {
            Seq::<u8>::empty()
        }
    } else {
        let e = edits[0];
        let gap = if e.0 > cursor && e.0 <= src.len() {
            src.subrange(cursor, e.0)
        } else {
            Seq::<u8>::empty()
        };
        gap + e.2 + splice_from(src, edits.drop_first(), e.1)
    }
}

pub open spec fn splice(src: Seq<u8>, edits: Seq<(int, int, Seq<u8>)>) -> Seq<u8> {
    splice_from(src, edits, 0)
}

/// Every edit bound that lies inside the source falls on a character
/// boundary, so every kept slice is whole UTF-8.
pub open spec fn edits_on_boundaries(src: Seq<u8>, edits: Seq<(int, int, Seq<u8>)>) -> bool {
    forall|i: int|
        #![trigger edits[i]]
        0 <= i < edits.len() ==> (0 <= edits[i].0 <= src.len() ==> is_char_boundary(src, edits[i].0)) && (0
            <= edits[i].1 <= src.len() ==> is_char_boundary(src, edits[i].1))
}

pub proof fn lemma_encode_utf8_concat(a: Seq<char>, b: Seq<char>)
    ensures
        encode_utf8(a + b) == encode_utf8(a) + encode_utf8(b),
    decreases a.len(),
{
    if a.len() == 0 {
        assert(a + b =~= b);
        assert(encode_utf8(a) =~= Seq::<u8>::empty());
        assert(Seq::<u8>::empty() + encode_utf8(b) =~= encode_utf8(b));
    } else {
        lemma_encode_utf8_concat(a.drop_first(), b);
        assert((a + b).drop_first() =~= a.drop_first() + b);
        assert((a + b)[0] == a[0]);
        assert(encode_utf8(a + b) =~= encode_scalar(a[0] as u32) + (encode_utf8(a.drop_first()) + encode_utf8(b)));
    }
}

// ----- untouched text -----

/// How much longer the output is than the source after the first `i`
/// edits: the sum of each edit's text length less the length of the range
/// it replaces.
pub open spec fn shift(edits: Seq<(int, int, Seq<u8>)>, i: int) -> int
    decreases edits.len(),
{
    if i <= 0 || edits.len() == 0 {
        0
    } else {
        (edits[0].2.len() - (edits[0].1 - edits[0].0)) + shift(edits.drop_first(), i - 1)
    }
}

/// Where the `i`-th stretch of untouched source starts: at `cursor`, or
/// after the edit before it.
pub open spec fn gap_start(edits: Seq<(int, int, Seq<u8>)>, cursor: int, i: int) -> int {
    if i == 0 {
        cursor
    } else {
        edits[i - 1].1
    }
}

/// Where the `i`-th stretch of untouched source ends: where the next edit
/// starts, or at the end of the source.
pub open spec fn gap_end(src: Seq<u8>, edits: Seq<(int, int, Seq<u8>)>, i: int) -> int {
    if i == edits.len() {
        src.len() as int
    } else {
        edits[i].0
    }
}

/// The output of splicing `edits` into `src` from `cursor` holds every
/// untouched stretch of the source, and every edit's text, in order: the
/// `i`-th of them moved by the length change of the edits before it.
pub open spec fn keeps_untouched(src: Seq<u8>, edits: Seq<(int, int, Seq<u8>)>, cursor: int, out: Seq<u8>) -> bool {
    &&& forall|i: int|
        0 <= i <= edits.len() ==> #[trigger] out.subrange(
            gap_start(edits, cursor, i) - cursor + shift(edits, i),
            gap_end(src, edits, i) - cursor + shift(edits, i),
        ) == src.subrange(gap_start(edits, cursor, i), gap_end(src, edits, i))
    &&& forall|i: int|
        0 <= i < edits.len() ==> #[trigger] out.subrange(
            edits[i].0 - cursor + shift(edits, i),
            edits[i].0 - cursor + shift(edits, i) + edits[i].2.len(),
        ) == edits[i].2
}

/// Every stretch and every edit text has its place inside an output of
/// `out_len` bytes.
pub open spec fn places_fit(src: Seq<u8>, edits: Seq<(int, int, Seq<u8>)>, cursor: int, out_len: int) -> bool {
    &&& forall|i: int|
        0 <= i <= edits.len() ==> 0 <= #[trigger] gap_start(edits, cursor, i) - cursor + shift(edits, i)
            && gap_start(edits, cursor, i) <= gap_end(src, edits, i) && gap_end(src, edits, i) - cursor + shift(
            edits,
            i,
        ) <= out_len
    &&& forall|i: int|
        0 <= i < edits.len() ==> 0 <= (#[trigger] edits[i]).0 - cursor + shift(edits, i) && edits[i].0 - cursor
            + shift(edits, i) + edits[i].2.len() <= out_len
}

proof fn lemma_splice_from_keeps_untouched(src: Seq<u8>, edits: Seq<(int, int, Seq<u8>)>, cursor: int)
    requires
        0 <= cursor <= src.len(),
        edits_disjoint(src.len() as int, edits),
        edits.len() > 0 ==> cursor <= edits[0].0,
    ensures
        keeps_untouched(src, edits, cursor, splice_from(src, edits, cursor)),
        places_fit(src, edits, cursor, splice_from(src, edits, cursor).len() as int),
        splice_from(src, edits, cursor).len() == src.len() - cursor + shift(edits, edits.len() as int),
    decreases edits.len(),
{
    let len = src.len() as int;
    let out = splice_from(src, edits, cursor);
    if edits.len() == 0 {
        if cursor == len {
            assert(out =~= Seq::<u8>::empty());
        }
        assert forall|i: int|
            0 <= i <= edits.len() implies #[trigger] out.subrange(
            gap_start(edits, cursor, i) - cursor + shift(edits, i),
            gap_end(src, edits, i) - cursor + shift(edits, i),
        ) == src.subrange(gap_start(edits, cursor, i), gap_end(src, edits, i)) by {
            assert(out.subrange(0, len - cursor) =~= src.subrange(cursor, len));
        }
    } else {
        let e = edits[0];
        let rest = edits.drop_first();
        assert forall|i: int| 0 <= i < rest.len() implies 0 <= (#[trigger] rest[i]).0 <= rest[i].1 <= len by {
            assert(rest[i] == edits[i + 1]);
        }
        assert forall|i: int, j: int| 0 <= i < j < rest.len() implies (#[trigger] rest[i]).1 <= (#[trigger] rest[j]).0 by {
            assert(rest[i] == edits[i + 1]);
            assert(rest[j] == edits[j + 1]);
        }
        if rest.len() > 0 {
            assert(rest[0] == edits[1]);
            assert(edits[0].1 <= edits[1].0);
        }
        lemma_splice_from_keeps_untouched(src, rest, e.1);
        let gap = src.subrange(cursor, e.0);
        if !(e.0 > cursor && e.0 <= len) {
            assert(gap =~= Seq::<u8>::empty());
        }
        let after = splice_from(src, rest, e.1);
        assert(out == gap + e.2 + after);
        let off = e.0 - cursor + e.2.len();
        let d = e.2.len() - (e.1 - e.0);
        assert(gap.len() == e.0 - cursor);
        assert((gap + e.2).len() == off);
        assert(out.len() == off + after.len());
        assert forall|i: int|
            0 <= i <= edits.len() implies 0 <= #[trigger] gap_start(edits, cursor, i) - cursor + shift(edits, i)
                && gap_start(edits, cursor, i) <= gap_end(src, edits, i) && gap_end(src, edits, i) - cursor + shift(
                edits,
                i,
            ) <= out.len() by {
            if i > 0 {
                assert(shift(edits, i) == d + shift(rest, i - 1));
                assert(gap_start(edits, cursor, i) == gap_start(rest, e.1, i - 1));
                assert(gap_end(src, edits, i) == gap_end(src, rest, i - 1));
                assert(0 <= gap_start(rest, e.1, i - 1) - e.1 + shift(rest, i - 1));
            }
        }
        assert forall|i: int|
            0 <= i < edits.len() implies 0 <= (#[trigger] edits[i]).0 - cursor + shift(edits, i) && edits[i].0
                - cursor + shift(edits, i) + edits[i].2.len() <= out.len() by {
            if i > 0 {
                assert(shift(edits, i) == d + shift(rest, i - 1));
                assert(edits[i] == rest[i - 1]);
                assert(0 <= rest[i - 1].0 - e.1 + shift(rest, i - 1));
            }
        }
        assert forall|i: int|
            0 <= i <= edits.len() implies #[trigger] out.subrange(
            gap_start(edits, cursor, i) - cursor + shift(edits, i),
            gap_end(src, edits, i) - cursor + shift(edits, i),
        ) == src.subrange(gap_start(edits, cursor, i), gap_end(src, edits, i)) by {
            if i == 0 {
                assert(out.subrange(0, e.0 - cursor) =~= gap);
            } else {
                assert(shift(edits, i) == d + shift(rest, i - 1));
                assert(gap_start(edits, cursor, i) == gap_start(rest, e.1, i - 1));
                assert(gap_end(src, edits, i) == gap_end(src, rest, i - 1));
                let a = gap_start(rest, e.1, i - 1) - e.1 + shift(rest, i - 1);
                let b = gap_end(src, rest, i - 1) - e.1 + shift(rest, i - 1);
                assert(after.subrange(a, b) == src.subrange(gap_start(rest, e.1, i - 1), gap_end(src, rest, i - 1)));
                assert(out.subrange(off + a, off + b) =~= after.subrange(a, b));
            }
        }
        assert forall|i: int|
            0 <= i < edits.len() implies #[trigger] out.subrange(
            edits[i].0 - cursor + shift(edits, i),
            edits[i].0 - cursor + shift(edits, i) + edits[i].2.len(),
        ) == edits[i].2 by {
            if i == 0 {
                assert(out.subrange(e.0 - cursor, e.0 - cursor + e.2.len()) =~= e.2);
            } else {
                assert(shift(edits, i) == d + shift(rest, i - 1));
                assert(edits[i] == rest[i - 1]);
                let a = rest[i - 1].0 - e.1 + shift(rest, i - 1);
                assert(after.subrange(a, a + rest[i - 1].2.len()) == rest[i - 1].2);
                assert(out.subrange(off + a, off + a + rest[i - 1].2.len()) =~= after.subrange(
                    a,
                    a + rest[i - 1].2.len(),
                ));
            }
        }
        assert(shift(edits, edits.len() as int) == d + shift(rest, rest.len() as int));
    }
}

/// Splicing keeps the source's untouched text in order: with edits that do
/// not overlap, the output holds each stretch of source between edits,
/// and each edit's text, in the order they come, each moved by the length
/// change of the edits before it; the output is as much longer than the
/// source as all edits together.
pub proof fn law_splice_keeps_untouched_text(src: Seq<u8>, edits: Seq<(int, int, Seq<u8>)>)
    requires
        edits_disjoint(src.len() as int, edits),
    ensures
        keeps_untouched(src, edits, 0, splice(src, edits)),
        splice(src, edits).len() == src.len() + shift(edits, edits.len() as int),
{
    lemma_splice_from_keeps_untouched(src, edits, 0);
}

/// Every stretch and edit text has its place inside the spliced output.
pub proof fn lemma_splice_places_fit(src: Seq<u8>, edits: Seq<(int, int, Seq<u8>)>)
    requires
        edits_disjoint(src.len() as int, edits),
    ensures
        places_fit(src, edits, 0, splice(src, edits).len() as int),
{
    lemma_splice_from_keeps_untouched(src, edits, 0);
}

/// A character boundary of valid UTF-8 at or before `b`, where `b` is a
/// boundary too, is a boundary of the first `b` bytes.
proof fn lemma_prefix_boundary(src: Seq<u8>, a: int, b: int)
    requires
        valid_utf8(src),
        0 <= a <= b <= src.len(),
        is_char_boundary(src, a),
        is_char_boundary(src, b),
    ensures
        valid_utf8(src.subrange(0, b)),
        is_char_boundary(src.subrange(0, b), a),
{
    valid_utf8_split(src, b);
    let head = src.subrange(0, b);
    if a == b {
        is_char_boundary_start_end_of_seq(head);
    } else if a > 0 {
        is_char_boundary_iff_not_is_continuation_byte(src, a);
        is_char_boundary_iff_not_is_continuation_byte(head, a);
        assert(head[a] == src[a]);
    }
}

/// The bytes `a..b` of `s`, which must be character boundaries.
fn str_slice(s: &str, a: usize, b: usize) -> (r: &str)
    requires
        a <= b <= s.spec_bytes().len(),
        is_char_boundary(s.spec_bytes(), a as int),
        is_char_boundary(s.spec_bytes(), b as int),
    ensures
        r.spec_bytes() == s.spec_bytes().subrange(a as int, b as int),
{
    proof {
        encode_utf8_valid_utf8(s@);
        lemma_prefix_boundary(s.spec_bytes(), a as int, b as int);
    }
    let (head, _) = s.split_at(b);
    let (_, r) = head.split_at(a);
    proof {
        assert(r.spec_bytes() =~= s.spec_bytes().subrange(a as int, b as int));
    }
    r
}

/// Appends `t` to `out`, tracking the UTF-8 bytes of the result.
fn append_text(out: &mut String, t: &str)
    ensures
        encode_utf8(final(out)@) == encode_utf8(old(out)@) + t.spec_bytes(),
{
    crate::text::push_str(out, t);
    proof {
        lemma_encode_utf8_concat(old(out)@, t@);
    }
}

/// `source` with `edits` applied in order (see [`splice`]).
pub fn apply_edits(source: &str, edits: &Vec<Edit>) -> (result: String)
    requires
        edits_on_boundaries(source.spec_bytes(), edits_model(edits@)),
    ensures
        encode_utf8(result@) == splice(source.spec_bytes(), edits_model(edits@)),
{
    let ghost src = source.spec_bytes();
    let ghost model = edits_model(edits@);
    proof {
        vstd::utf8::encode_utf8_valid_utf8(source@);
        vstd::utf8::is_char_boundary_start_end_of_seq(src);
    }
    let len = source.as_bytes().len();
    let mut result = String::new();
    let mut cursor: usize = 0;
    let mut i: usize = 0;
    proof {
        assert(model.skip(0) =~= model);
        assert(encode_utf8(result@) =~= Seq::<u8>::empty());
        assert(Seq::<u8>::empty() + splice(src, model) =~= splice(src, model));
    }
    while i < edits.len()
        invariant
            src == source.spec_bytes(),
            model == edits_model(edits@),
            len == src.len(),
            valid_utf8(src),
            is_char_boundary(src, 0),
            is_char_boundary(src, len as int),
            edits_on_boundaries(src, model),
            i <= edits@.len(),
            cursor <= len ==> is_char_boundary(src, cursor as int),
            encode_utf8(result@) + splice_from(src, model.skip(i as int), cursor as int) == splice(src, model),
        decreases edits@.len() - i,
    {
        let start = edits[i].start;
        let ghost before = result@;
        let ghost c0 = cursor as int;
        proof {
            assert(model.skip(i as int)[0] == model[i as int]);
            assert(model.skip(i as int).drop_first() =~= model.skip(i + 1));
        }
        if start > cursor && start <= len {
            let gap = str_slice(source, cursor, start);
            append_text(&mut result, gap);
        }
        append_text(&mut result, edits[i].text.as_str());
        cursor = edits[i].end;
        proof {
            let e = model[i as int];
            let gap = if e.0 > c0 && e.0 <= src.len() { src.subrange(c0, e.0) } else { Seq::<u8>::empty() };
            assert(encode_utf8(result@) == encode_utf8(before) + gap + e.2);
            assert(splice_from(src, model.skip(i as int), c0) == gap + e.2 + splice_from(src, model.skip(i + 1), e.1));
            assert(encode_utf8(result@) + splice_from(src, model.skip(i + 1), cursor as int) =~= splice(src, model));
        }
        i += 1;
    }
    if cursor < len {
        let tail = str_slice(source, cursor, len);
        append_text(&mut result, tail);
    }
    proof {
        assert(model.skip(i as int) =~= Seq::<(int, int, Seq<u8>)>::empty());
        assert(encode_utf8(result@) =~= splice(src, model));
    }
    result
}

/// Number of newline bytes in `b`.
pub open spec fn newline_count(b: Seq<u8>) -> nat
    decreases b.len(),
{
    if b.len() == 0 {
        0
    } else {
        newline_count(b.drop_last()) + if b.last() == 10 {
            1nat
        } else {
            0nat
        }
    }
}

/// Line breaks are additive over concatenation.
pub proof fn lemma_newline_count_concat(a: Seq<u8>, b: Seq<u8>)
    ensures
        newline_count(a + b) == newline_count(a) + newline_count(b),
    decreases b.len(),
{
    if b.len() == 0 {
        assert(a + b =~= a);
    } else {
        lemma_newline_count_concat(a, b.drop_last());
        assert((a + b).drop_last() =~= a + b.drop_last());
        assert((a + b).last() == b.last());
    }
}

/// The edits lie inside a source of `len` bytes, each ending no later than
/// the next one starts.
pub open spec fn edits_disjoint(len: int, edits: Seq<(int, int, Seq<u8>)>) -> bool {
    &&& forall|i: int| 0 <= i < edits.len() ==> 0 <= (#[trigger] edits[i]).0 <= edits[i].1 <= len
    &&& forall|i: int, j: int| 0 <= i < j < edits.len() ==> (#[trigger] edits[i]).1 <= (#[trigger] edits[j]).0
}

/// The text of edit `e` holds as many line breaks as the bytes of `src`
/// it replaces.
pub open spec fn keeps_line_breaks(src: Seq<u8>, e: (int, int, Seq<u8>)) -> bool {
    newline_count(e.2) == newline_count(src.subrange(e.0, e.1))
}

proof fn lemma_splice_from_line_count(src: Seq<u8>, edits: Seq<(int, int, Seq<u8>)>, cursor: int)
    requires
        0 <= cursor <= src.len(),
        edits_disjoint(src.len() as int, edits),
        edits.len() > 0 ==> cursor <= edits[0].0,
        forall|i: int| 0 <= i < edits.len() ==> keeps_line_breaks(src, #[trigger] edits[i]),
    ensures
        newline_count(splice_from(src, edits, cursor)) == newline_count(src.subrange(cursor, src.len() as int)),
    decreases edits.len(),
{
    let len = src.len() as int;
    if edits.len() == 0 {
        if cursor == len {
            assert(src.subrange(cursor, len) =~= Seq::<u8>::empty());
        }
    } else {
        let e = edits[0];
        let rest = edits.drop_first();
        assert forall|i: int| 0 <= i < rest.len() implies 0 <= (#[trigger] rest[i]).0 <= rest[i].1 <= len by {
            assert(rest[i] == edits[i + 1]);
        }
        assert forall|i: int, j: int| 0 <= i < j < rest.len() implies (#[trigger] rest[i]).1 <= (#[trigger] rest[j]).0 by {
            assert(rest[i] == edits[i + 1]);
            assert(rest[j] == edits[j + 1]);
        }
        assert forall|i: int| 0 <= i < rest.len() implies keeps_line_breaks(src, #[trigger] rest[i]) by {
            assert(rest[i] == edits[i + 1]);
        }
        if rest.len() > 0 {
            assert(rest[0] == edits[1]);
        }
        lemma_splice_from_line_count(src, rest, e.1);
        let gap = src.subrange(cursor, e.0);
        let mid = src.subrange(e.0, e.1);
        let tail = src.subrange(e.1, len);
        let after = splice_from(src, rest, e.1);
        if !(e.0 > cursor && e.0 <= len) {
            assert(gap =~= Seq::<u8>::empty());
        }
        assert(splice_from(src, edits, cursor) == gap + e.2 + after);
        lemma_newline_count_concat(gap, e.2);
        lemma_newline_count_concat(gap + e.2, after);
        assert(src.subrange(cursor, len) =~= gap + mid + tail);
        lemma_newline_count_concat(gap, mid);
        lemma_newline_count_concat(gap + mid, tail);
    }
}

/// Splicing in edits that do not overlap and whose texts each hold as many
/// line breaks as the bytes they replace leaves the line count unchanged.
pub proof fn law_splice_keeps_line_count(src: Seq<u8>, edits: Seq<(int, int, Seq<u8>)>)
    requires
        edits_disjoint(src.len() as int, edits),
        forall|i: int| 0 <= i < edits.len() ==> keeps_line_breaks(src, #[trigger] edits[i]),
    ensures
        newline_count(splice(src, edits)) == newline_count(src),
{
    lemma_splice_from_line_count(src, edits, 0);
    assert(src.subrange(0, src.len() as int) =~= src);
}

/// The bytes of valid UTF-8 between two character boundaries are valid
/// UTF-8.
pub proof fn lemma_subrange_valid_utf8(src: Seq<u8>, a: int, b: int)
    requires
        valid_utf8(src),
        0 <= a <= b <= src.len(),
        is_char_boundary(src, a),
        is_char_boundary(src, b),
    ensures
        valid_utf8(src.subrange(a, b)),
{
    valid_utf8_split(src, b);
    let head = src.subrange(0, b);
    if a == b {
        is_char_boundary_start_end_of_seq(head);
    } else if a > 0 {
        is_char_boundary_iff_not_is_continuation_byte(src, a);
        is_char_boundary_iff_not_is_continuation_byte(head, a);
        assert(head[a] == src[a]);
    }
    valid_utf8_split(head, a);
    assert(head.subrange(a, b) =~= src.subrange(a, b));
}

proof fn lemma_splice_from_valid(src: Seq<u8>, edits: Seq<(int, int, Seq<u8>)>, cursor: int)
    requires
        valid_utf8(src),
        0 <= cursor <= src.len(),
        is_char_boundary(src, cursor),
        edits_disjoint(src.len() as int, edits),
        edits.len() > 0 ==> cursor <= edits[0].0,
        forall|i: int|
            0 <= i < edits.len() ==> is_char_boundary(src, (#[trigger] edits[i]).0) && is_char_boundary(src, edits[i].1)
                && valid_utf8(edits[i].2),
    ensures
        valid_utf8(splice_from(src, edits, cursor)),
    decreases edits.len(),
{
    let len = src.len() as int;
    if edits.len() == 0 {
        if cursor < len {
            is_char_boundary_start_end_of_seq(src);
            lemma_subrange_valid_utf8(src, cursor, len);
        } else {
            assert(valid_utf8(Seq::<u8>::empty()));
        }
    } else {
        let e = edits[0];
        let rest = edits.drop_first();
        assert forall|i: int| 0 <= i < rest.len() implies 0 <= (#[trigger] rest[i]).0 <= rest[i].1 <= len by {
            assert(rest[i] == edits[i + 1]);
        }
        assert forall|i: int, j: int| 0 <= i < j < rest.len() implies (#[trigger] rest[i]).1 <= (#[trigger] rest[j]).0 by {
            assert(rest[i] == edits[i + 1]);
            assert(rest[j] == edits[j + 1]);
        }
        assert forall|i: int|
            0 <= i < rest.len() implies is_char_boundary(src, (#[trigger] rest[i]).0) && is_char_boundary(src, rest[i].1)
                && valid_utf8(rest[i].2) by {
            assert(rest[i] == edits[i + 1]);
        }
        if rest.len() > 0 {
            assert(rest[0] == edits[1]);
        }
        lemma_splice_from_valid(src, rest, e.1);
        let gap = src.subrange(cursor, e.0);
        lemma_subrange_valid_utf8(src, cursor, e.0);
        if !(e.0 > cursor && e.0 <= len) {
            assert(gap =~= Seq::<u8>::empty());
        }
        let after = splice_from(src, rest, e.1);
        assert(splice_from(src, edits, cursor) == gap + e.2 + after);
        valid_utf8_concat(gap, e.2);
        valid_utf8_concat(gap + e.2, after);
    }
}

/// Splicing valid UTF-8 texts into valid UTF-8 at character boundaries,
/// with edits that do not overlap, gives valid UTF-8.
pub proof fn lemma_splice_valid(src: Seq<u8>, edits: Seq<(int, int, Seq<u8>)>)
    requires
        valid_utf8(src),
        edits_disjoint(src.len() as int, edits),
        forall|i: int|
            0 <= i < edits.len() ==> is_char_boundary(src, (#[trigger] edits[i]).0) && is_char_boundary(src, edits[i].1)
                && valid_utf8(edits[i].2),
    ensures
        valid_utf8(splice(src, edits)),
{
    is_char_boundary_start_end_of_seq(src);
    lemma_splice_from_valid(src, edits, 0);
}

/// Every bound of edit `e` that lies inside `src` is a character boundary.
pub open spec fn edit_on_boundaries(src: Seq<u8>, e: (int, int, Seq<u8>)) -> bool {
    (0 <= e.0 <= src.len() ==> is_char_boundary(src, e.0)) && (0 <= e.1 <= src.len() ==> is_char_boundary(src, e.1))
}

proof fn lemma_insert_by_start_elements(x: (int, int, Seq<u8>), sorted: Seq<(int, int, Seq<u8>)>, y: (int, int, Seq<u8>))
    requires
        insert_by_start(x, sorted).contains(y),
    ensures
        y == x || sorted.contains(y),
    decreases sorted.len(),
{
    if sorted.len() == 0 {
        assert(seq![x][0] == x);
    } else if x.0 < sorted.last().0 {
        let i = choose|i: int| 0 <= i < insert_by_start(x, sorted).len() && insert_by_start(x, sorted)[i] == y;
        let init = insert_by_start(x, sorted.drop_last());
        if i < init.len() {
            assert(init[i] == y);
            lemma_insert_by_start_elements(x, sorted.drop_last(), y);
            if sorted.drop_last().contains(y) {
                let j = choose|j: int| 0 <= j < sorted.drop_last().len() && sorted.drop_last()[j] == y;
                assert(sorted[j] == y);
            }
        } else {
            assert(sorted[sorted.len() - 1] == y);
        }
    } else {
        let i = choose|i: int| 0 <= i < sorted.push(x).len() && sorted.push(x)[i] == y;
        if i < sorted.len() {
            assert(sorted[i] == y);
        }
    }
}

/// Every edit of the sorted edits is one of the edits.
pub proof fn lemma_sort_by_start_elements(edits: Seq<(int, int, Seq<u8>)>, y: (int, int, Seq<u8>))
    requires
        sort_by_start(edits).contains(y),
    ensures
        edits.contains(y),
    decreases edits.len(),
{
    let init = edits.drop_last();
    lemma_insert_by_start_elements(edits.last(), sort_by_start(init), y);
    if y == edits.last() {
        assert(edits[edits.len() - 1] == y);
    } else {
        lemma_sort_by_start_elements(init, y);
        let j = choose|j: int| 0 <= j < init.len() && init[j] == y;
        assert(edits[j] == y);
    }
}

/// Sorting keeps the per-edit boundary property.
pub proof fn lemma_sort_keeps_boundaries(src: Seq<u8>, edits: Seq<(int, int, Seq<u8>)>)
    requires
        forall|i: int| 0 <= i < edits.len() ==> edit_on_boundaries(src, #[trigger] edits[i]),
    ensures
        edits_on_boundaries(src, sort_by_start(edits)),
    decreases edits.len(),
{
    if edits.len() > 0 {
        let init = edits.drop_last();
        assert forall|i: int| 0 <= i < init.len() implies edit_on_boundaries(src, #[trigger] init[i]) by {
            assert(init[i] == edits[i]);
        }
        lemma_sort_keeps_boundaries(src, init);
        let t = sort_by_start(init);
        let r = sort_by_start(edits);
        assert forall|i: int| 0 <= i < r.len() implies edit_on_boundaries(src, #[trigger] r[i]) by {
            assert(r.contains(r[i]));
            lemma_insert_by_start_elements(edits.last(), t, r[i]);
            if t.contains(r[i]) {
                let j = choose|j: int| 0 <= j < t.len() && t[j] == r[i];
                assert(edit_on_boundaries(src, t[j]));
            } else {
                assert(edit_on_boundaries(src, edits[edits.len() - 1]));
            }
        }
    }
}

/// Inserting keeps every element, and adds the inserted one.
pub proof fn lemma_insert_by_start_keeps(x: (int, int, Seq<u8>), sorted: Seq<(int, int, Seq<u8>)>, y: (int, int, Seq<u8>))
    requires
        y == x || sorted.contains(y),
    ensures
        insert_by_start(x, sorted).contains(y),
    decreases sorted.len(),
{
    let r = insert_by_start(x, sorted);
    if sorted.len() == 0 {
        assert(r[0] == x);
    } else if x.0 < sorted.last().0 {
        let init = sorted.drop_last();
        if y == sorted.last() {
            assert(r[r.len() - 1] == y);
        } else {
            if y != x {
                let j = choose|j: int| 0 <= j < sorted.len() && sorted[j] == y;
                assert(init[j] == y);
            }
            lemma_insert_by_start_keeps(x, init, y);
            let t = insert_by_start(x, init);
            let j = choose|j: int| 0 <= j < t.len() && t[j] == y;
            assert(r[j] == y);
        }
    } else {
        if y == x {
            assert(r[r.len() - 1] == y);
        } else {
            let j = choose|j: int| 0 <= j < sorted.len() && sorted[j] == y;
            assert(r[j] == y);
        }
    }
}

/// Sorting keeps every edit.
pub proof fn lemma_sort_by_start_keeps(edits: Seq<(int, int, Seq<u8>)>, y: (int, int, Seq<u8>))
    requires
        edits.contains(y),
    ensures
        sort_by_start(edits).contains(y),
    decreases edits.len(),
{
    let init = edits.drop_last();
    if y == edits.last() {
        lemma_insert_by_start_keeps(edits.last(), sort_by_start(init), y);
    } else {
        let j = choose|j: int| 0 <= j < edits.len() && edits[j] == y;
        assert(init[j] == y);
        lemma_sort_by_start_keeps(init, y);
        lemma_insert_by_start_keeps(edits.last(), sort_by_start(init), y);
    }
}

/// The shift past edit `i` is the shift before it plus that edit's length change.
pub proof fn lemma_shift_step(edits: Seq<(int, int, Seq<u8>)>, i: int)
    requires
        0 <= i < edits.len(),
    ensures
        shift(edits, i + 1) == shift(edits, i) + (edits[i].2.len() - (edits[i].1 - edits[i].0)),
    decreases i,
{
    let d0 = edits[0].2.len() - (edits[0].1 - edits[0].0);
    assert(shift(edits, i + 1) == d0 + shift(edits.drop_first(), i));
    if i > 0 {
        lemma_shift_step(edits.drop_first(), i - 1);
        assert(edits.drop_first()[i - 1] == edits[i]);
        assert(shift(edits, i) == d0 + shift(edits.drop_first(), i - 1));
    } else {
        assert(shift(edits.drop_first(), 0) == 0);
        assert(shift(edits, 0) == 0);
    }
}

} // verus!
