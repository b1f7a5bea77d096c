//! Offset-safe text splicing.
//!
//! Both rewrite passes first collect all edits as `(start, end, replacement)`
//! triples against the original byte buffer and only then apply them, in
//! strictly descending start order, so the offsets of edits that have not
//! been applied yet stay valid.  The buffer is never mutated while scanning.

use vstd::prelude::*;

verus! {

/// One pending text edit: replace the bytes of `[start, end)` with `replacement`.
/// An insertion is an edit with `start == end`.
pub struct Edit {
    pub start: usize,
    pub end: usize,
    pub replacement: Vec<u8>,
}

/// The mathematical form of one edit.
pub struct EditView {
    pub start: int,
    pub end: int,
    pub replacement: Seq<u8>,
}

impl View for Edit {
    type V = EditView;

    open spec fn view(&self) -> EditView {
        EditView {
            start: self.start as int,
            end: self.end as int,
            replacement: self.replacement@,
        }
    }
}

/// The views of a sequence of edits.
pub open spec fn edit_views(es: Seq<Edit>) -> Seq<EditView> {
    es.map_values(|e: Edit| e@)
}

/// The edit lies inside a text of length `len`.
pub open spec fn edit_in_bounds(e: EditView, len: int) -> bool {
    0 <= e.start <= e.end <= len
}

/// The edits lie inside a text of length `len`, in ascending start order,
/// and no two of them overlap.
pub open spec fn edits_wf(es: Seq<EditView>, len: int) -> bool {
    &&& forall|i: int| 0 <= i < es.len() ==> edit_in_bounds(#[trigger] es[i], len)
    &&& forall|i: int, j: int| 0 <= i < j < es.len() ==> #[trigger] es[i].end <= #[trigger] es[j].start
}

/// The text with one edit applied.
pub open spec fn spec_splice(text: Seq<u8>, e: EditView) -> Seq<u8> {
    text.take(e.start) + e.replacement + text.skip(e.end)
}

/// The text with all edits applied, processing the edit whose span starts
/// last first, so that the spans of the remaining edits stay valid.
pub open spec fn spec_apply_edits(text: Seq<u8>, es: Seq<EditView>) -> Seq<u8>
    decreases es.len(),
{
    if es.len() == 0 {
        text
    } else {
        spec_apply_edits(spec_splice(text, es.last()), es.drop_last())
    }
}

/// The total length change the edits cause: replacement lengths added,
/// replaced span lengths removed.
pub open spec fn spec_len_delta(es: Seq<EditView>) -> int
    decreases es.len(),
{
    if es.len() == 0 {
        0
    } else {
        spec_len_delta(es.drop_last()) + es.last().replacement.len() - (es.last().end
            - es.last().start)
    }
}

/// The sum of the replacement lengths alone.
pub open spec fn spec_inserted_total(es: Seq<EditView>) -> int
    decreases es.len(),
{
    if es.len() == 0 {
        0
    } else {
        spec_inserted_total(es.drop_last()) + es.last().replacement.len()
    }
}

proof fn lemma_edits_wf_after_splice(text: Seq<u8>, es: Seq<EditView>)
    requires
        edits_wf(es, text.len() as int),
        es.len() > 0,
    ensures
        edits_wf(es.drop_last(), spec_splice(text, es.last()).len() as int),
        spec_splice(text, es.last()).len() == text.len() + es.last().replacement.len() - (
        es.last().end - es.last().start),
{
    let e = es.last();
    assert(edit_in_bounds(e, text.len() as int));
    let new_len = spec_splice(text, e).len() as int;
    assert(new_len == e.start + e.replacement.len() + (text.len() - e.end));
    assert forall|i: int| 0 <= i < es.drop_last().len() implies edit_in_bounds(
        #[trigger] es.drop_last()[i],
        new_len,
    ) by {
        assert(es.drop_last()[i] == es[i]);
        assert(es[i].end <= es[es.len() - 1].start);
    }
}

/// Length law: applying well-formed edits changes the text's length by
/// exactly the sum of the replacement lengths minus the replaced spans.
pub proof fn lemma_apply_edits_length(text: Seq<u8>, es: Seq<EditView>)
    requires
        edits_wf(es, text.len() as int),
    ensures
        spec_apply_edits(text, es).len() == text.len() + spec_len_delta(es),
    decreases es.len(),
{
    if es.len() > 0 {
        lemma_edits_wf_after_splice(text, es);
        lemma_apply_edits_length(spec_splice(text, es.last()), es.drop_last());
    }
}

/// Length law for pure insertions: the rewritten text's length equals the
/// original length plus the sum of the inserted snippet lengths.
pub proof fn lemma_insertions_length(text: Seq<u8>, es: Seq<EditView>)
    requires
        edits_wf(es, text.len() as int),
        forall|i: int| 0 <= i < es.len() ==> (#[trigger] es[i]).start == es[i].end,
    ensures
        spec_apply_edits(text, es).len() == text.len() + spec_inserted_total(es),
{
    lemma_apply_edits_length(text, es);
    lemma_delta_of_insertions(es);
}

proof fn lemma_delta_of_insertions(es: Seq<EditView>)
    requires
        forall|i: int| 0 <= i < es.len() ==> (#[trigger] es[i]).start == es[i].end,
    ensures
        spec_len_delta(es) == spec_inserted_total(es),
    decreases es.len(),
{
    if es.len() > 0 {
        assert(es.last() == es[es.len() - 1]);
        lemma_delta_of_insertions(es.drop_last());
    }
}

/// A fresh buffer holding `text` with the bytes of `[start, end)` replaced
/// by `replacement`.
pub fn splice_bytes(text: &Vec<u8>, start: usize, end: usize, replacement: &Vec<u8>) -> (r: Vec<
    u8,
>)
    requires
        start <= end <= text@.len(),
    ensures
        r@ == spec_splice(
            text@,
            EditView { start: start as int, end: end as int, replacement: replacement@ },
        ),
{
    let mut r: Vec<u8> = Vec::new();
    let mut k: usize = 0;
    while k < start
        invariant
            0 <= k <= start <= end <= text@.len(),
            r@ == text@.take(k as int),
        decreases start - k,
    {
        r.push(text[k]);
        proof {
            assert(text@.take(k as int).push(text@[k as int]) =~= text@.take(k + 1));
        }
        k = k + 1;
    }
    let mut t: usize = 0;
    let rn: usize = replacement.len();
    while t < rn
        invariant
            0 <= t <= rn,
            rn == replacement@.len(),
            start <= end <= text@.len(),
            r@ == text@.take(start as int) + replacement@.take(t as int),
        decreases rn - t,
    {
        r.push(replacement[t]);
        proof {
            assert((text@.take(start as int) + replacement@.take(t as int)).push(
                replacement@[t as int],
            ) =~= text@.take(start as int) + replacement@.take(t + 1));
        }
        t = t + 1;
    }
    proof {
        assert(replacement@.take(rn as int) =~= replacement@);
    }
    let tn: usize = text.len();
    let mut u: usize = end;
    while u < tn
        invariant
            end <= u <= tn,
            tn == text@.len(),
            start <= end,
            r@ == text@.take(start as int) + replacement@ + text@.subrange(end as int, u as int),
        decreases tn - u,
    {
        r.push(text[u]);
        proof {
            assert((text@.take(start as int) + replacement@ + text@.subrange(
                end as int,
                u as int,
            )).push(text@[u as int]) =~= text@.take(start as int) + replacement@ + text@.subrange(
                end as int,
                u + 1,
            ));
        }
        u = u + 1;
    }
    proof {
        assert(text@.subrange(end as int, tn as int) =~= text@.skip(end as int));
    }
    r
}

/// `text` with all edits applied, the edit starting last first, exactly as
/// `spec_apply_edits` describes.
pub fn apply_edits(text: Vec<u8>, edits: &Vec<Edit>) -> (r: Vec<u8>)
    requires
        edits_wf(edit_views(edits@), text@.len() as int),
    ensures
        r@ == spec_apply_edits(text@, edit_views(edits@)),
{
    let ghost all = edit_views(edits@);
    let ghost orig = text@;
    let mut cur = text;
    let mut k: usize = edits.len();
    proof {
        assert(all.take(k as int) =~= all);
    }
    while k > 0
        invariant
            0 <= k <= edits@.len(),
            all == edit_views(edits@),
            edits_wf(all.take(k as int), cur@.len() as int),
            spec_apply_edits(cur@, all.take(k as int)) == spec_apply_edits(orig, all),
        decreases k,
    {
        let e = &edits[k - 1];
        proof {
            assert(all.take(k as int)[k - 1] == e@);
            assert(edit_in_bounds(e@, cur@.len() as int));
            assert(all.take(k as int).last() == e@);
            assert(all.take(k as int).drop_last() =~= all.take(k - 1));
            lemma_edits_wf_after_splice(cur@, all.take(k as int));
        }
        let next = splice_bytes(&cur, e.start, e.end, &e.replacement);
        cur = next;
        k = k - 1;
    }
    proof {
        assert(all.take(0) =~= Seq::<EditView>::empty());
    }
    cur
}

/// The sub-sequence of candidate edits that survives sanitising: an edit is
/// kept only when it lies inside the text and starts at or after the end of
/// the previously kept edit, so the kept edits are always well formed.
pub open spec fn spec_sanitize(es: Seq<EditView>, len: int, lo: int) -> Seq<EditView>
    decreases es.len(),
{
    if es.len() == 0 {
        es
    } else {
        let e = es[0];
        if lo <= e.start && e.start <= e.end && e.end <= len {
            seq![e] + spec_sanitize(es.skip(1), len, e.end)
        } else {
            spec_sanitize(es.skip(1), len, lo)
        }
    }
}

/// Sanitised edits are well formed and start no earlier than `lo`.
pub proof fn lemma_sanitize_wf(es: Seq<EditView>, len: int, lo: int)
    requires
        0 <= lo,
    ensures
        edits_wf(spec_sanitize(es, len, lo), len),
        forall|i: int|
            0 <= i < spec_sanitize(es, len, lo).len() ==> lo <= (#[trigger] spec_sanitize(
                es,
                len,
                lo,
            )[i]).start,
    decreases es.len(),
{
    if es.len() > 0 {
        let e = es[0];
        if lo <= e.start && e.start <= e.end && e.end <= len {
            lemma_sanitize_wf(es.skip(1), len, e.end);
            let rest = spec_sanitize(es.skip(1), len, e.end);
            let whole = seq![e] + rest;
            assert forall|i: int| 0 <= i < whole.len() implies edit_in_bounds(
                #[trigger] whole[i],
                len,
            ) by {
                if i > 0 {
                    assert(whole[i] == rest[i - 1]);
                }
            }
            assert forall|i: int, j: int| 0 <= i < j < whole.len() implies #[trigger] whole[i].end
                <= #[trigger] whole[j].start by {
                if i > 0 {
                    assert(whole[i] == rest[i - 1]);
                    assert(whole[j] == rest[j - 1]);
                } else {
                    assert(whole[j] == rest[j - 1]);
                    assert(e.end <= rest[j - 1].start);
                }
            }
        } else {
            lemma_sanitize_wf(es.skip(1), len, lo);
        }
    }
}

/// Drops every candidate edit that is out of bounds or overlaps an earlier
/// kept edit; what remains is well formed and can be applied.
pub fn sanitize_edits(mut edits: Vec<Edit>, len: usize) -> (r: Vec<Edit>)
    ensures
        edit_views(r@) == spec_sanitize(edit_views(edits@), len as int, 0),
        edits_wf(edit_views(r@), len as int),
{
    let ghost orig = edit_views(edits@);
    let mut r: Vec<Edit> = Vec::new();
    let mut lo: usize = 0;
    while edits.len() > 0
        invariant
            lo <= len,
            edit_views(r@) + spec_sanitize(edit_views(edits@), len as int, lo as int)
                == spec_sanitize(orig, len as int, 0),
            edits_wf(edit_views(r@), len as int),
            forall|i: int|
                0 <= i < r@.len() ==> (#[trigger] edit_views(r@)[i]).end <= lo,
        decreases edits@.len(),
    {
        let ghost pre = edit_views(edits@);
        let e = edits.remove(0);
        proof {
            assert(edit_views(edits@) =~= pre.skip(1));
            assert(pre[0] == e@);
        }
        if lo <= e.start && e.start <= e.end && e.end <= len {
            let e_end = e.end;
            let ghost new_lo = e@.end;
            let ghost rv = edit_views(r@);
            r.push(e);
            proof {
                assert(edit_views(r@) =~= rv.push(pre[0]));
                assert(edit_views(r@) + spec_sanitize(edit_views(edits@), len as int, new_lo)
                    =~= rv + (seq![pre[0]] + spec_sanitize(pre.skip(1), len as int, new_lo)));
                assert forall|i: int, j: int| 0 <= i < j < edit_views(r@).len()
                    implies #[trigger] edit_views(r@)[i].end <= #[trigger] edit_views(
                    r@,
                )[j].start by {
                    if j < edit_views(r@).len() - 1 {
                        assert(edit_views(r@)[i] == rv[i]);
                        assert(edit_views(r@)[j] == rv[j]);
                    } else {
                        assert(edit_views(r@)[i] == rv[i]);
                        assert(rv[i].end <= lo as int);
                    }
                }
            }
            lo = e_end;
        } else {
            proof {
                assert(edit_views(r@) + spec_sanitize(edit_views(edits@), len as int, lo as int)
                    == spec_sanitize(orig, len as int, 0));
            }
        }
    }
    proof {
        assert(edit_views(edits@) =~= Seq::<EditView>::empty());
        assert(edit_views(r@) + spec_sanitize(Seq::<EditView>::empty(), len as int, lo as int)
            =~= edit_views(r@));
    }
    r
}

} // verus!
