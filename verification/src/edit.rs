//! The edit model: one textual change over a document's bytes, and the
//! left-to-right splice that merges an ordered list of edits into the
//! original content.

use vstd::prelude::*;

verus! {

/// One textual change: starting at absolute byte offset `position` in the
/// containing document, remove `deleted_length` bytes and insert
/// `inserted_text` in their place.
#[derive(Debug, PartialEq, Eq, Clone)]
pub struct Edit {
    pub position: usize,
    pub deleted_length: usize,
    pub inserted_text: Vec<u8>,
}

/// The edits, read left to right, lie inside the span of `len` bytes that
/// begins at absolute offset `anchor`, are ordered by non-decreasing
/// position, and do not overlap: each edit begins at or after the end of
/// the previous one.
pub open spec fn edits_well_formed(edits: Seq<Edit>, anchor: int, len: int) -> bool {
    &&& forall|i: int| 0 <= i < edits.len() ==> anchor <= #[trigger] edits[i].position
    &&& forall|i: int| 0 <= i < edits.len()
        ==> #[trigger] edits[i].position + edits[i].deleted_length <= anchor + len
    &&& forall|i: int| 0 < i < edits.len()
        ==> #[trigger] edits[i].position >= edits[i - 1].position + edits[i - 1].deleted_length
}

/// The bytes produced by splicing `edits` into `content`, where `content`
/// begins at absolute offset `anchor` and the cursor stands at relative
/// offset `start`: for each edit, the untouched bytes up to the edit are
/// kept, the inserted text is appended, and the deleted bytes are skipped;
/// the tail after the last edit is kept unchanged.
pub open spec fn merge_spec(content: Seq<u8>, edits: Seq<Edit>, anchor: int, start: int) -> Seq<u8>
    decreases edits.len(),
{
    if edits.len() == 0 {
        content.subrange(start, content.len() as int)
    } else {
        let pos = edits[0].position - anchor;
        content.subrange(start, pos) + edits[0].inserted_text@ + merge_spec(
            content,
            edits.skip(1),
            anchor,
            pos + edits[0].deleted_length,
        )
    }
}

/// Decides whether `edits` satisfy the splice precondition over a span of
/// `len` bytes anchored at absolute offset `anchor`.
pub fn edits_in_order(edits: &Vec<Edit>, anchor: usize, len: usize) -> (r: bool)
    ensures
        r == edits_well_formed(edits@, anchor as int, len as int),
{
    let mut i: usize = 0;
    while i < edits.len()
        invariant
            0 <= i <= edits@.len(),
            forall|j: int| 0 <= j < i ==> anchor <= #[trigger] edits@[j].position,
            forall|j: int| 0 <= j < i
                ==> #[trigger] edits@[j].position + edits@[j].deleted_length <= anchor + len,
            forall|j: int| 0 < j < i
                ==> #[trigger] edits@[j].position >= edits@[j - 1].position + edits@[j
                - 1].deleted_length,
        decreases edits@.len() - i,
    {
        let e = &edits[i];
        if e.position < anchor {
            assert(!edits_well_formed(edits@, anchor as int, len as int));
            return false;
        }
        let rel = e.position - anchor;
        if e.deleted_length > len || rel > len - e.deleted_length {
            assert(!edits_well_formed(edits@, anchor as int, len as int));
            return false;
        }
        if i > 0 {
            let prev = &edits[i - 1];
            // both relative offsets were bounded by `len` in earlier rounds
            let prev_end = (prev.position - anchor) + prev.deleted_length;
            if rel < prev_end {
                assert(!edits_well_formed(edits@, anchor as int, len as int));
                return false;
            }
        }
        i = i + 1;
    }
    true
}

proof fn lemma_skip_step(edits: Seq<Edit>, i: int)
    requires
        0 <= i < edits.len(),
    ensures
        edits.skip(i)[0] == edits[i],
        edits.skip(i).skip(1) =~= edits.skip(i + 1),
        edits.skip(i).len() == edits.len() - i,
{
}

/// Splices `edits` into `content` in one left-to-right pass.
///
/// `content` is the byte span that begins at absolute offset `anchor`;
/// each edit's `position` is absolute. The result keeps every byte not
/// covered by an edit and replaces each edit's deleted span with its
/// inserted text.
#[verifier::rlimit(60)]
pub fn merge_edits(content: &Vec<u8>, edits: &Vec<Edit>, anchor: usize) -> (r: Vec<u8>)
    requires
        edits_well_formed(edits@, anchor as int, content@.len() as int),
    ensures
        r@ == merge_spec(content@, edits@, anchor as int, 0),
{
    let mut out: Vec<u8> = Vec::new();
    let mut start: usize = 0;
    let mut i: usize = 0;
    proof {
        assert(edits@.skip(0) =~= edits@);
        assert(Seq::<u8>::empty() + merge_spec(content@, edits@, anchor as int, 0) =~= merge_spec(
            content@,
            edits@,
            anchor as int,
            0,
        ));
    }
    while i < edits.len()
        invariant
            0 <= i <= edits@.len(),
            edits_well_formed(edits@, anchor as int, content@.len() as int),
            start <= content@.len(),
            i < edits@.len() ==> start <= edits@[i as int].position - anchor,
            merge_spec(content@, edits@, anchor as int, 0) == out@ + merge_spec(
                content@,
                edits@.skip(i as int),
                anchor as int,
                start as int,
            ),
        decreases edits@.len() - i,
    {
        proof {
            lemma_skip_step(edits@, i as int);
        }
        let e = &edits[i];
        assert(anchor <= e.position);
        assert(e.position + e.deleted_length <= anchor + content@.len());
        let pos = e.position - anchor;
        let ghost out0 = out@;
        let mut k: usize = start;
        while k < pos
            invariant
                start <= k <= pos,
                pos <= content@.len(),
                out@ == out0 + content@.subrange(start as int, k as int),
            decreases pos - k,
        {
            assert(content@.subrange(start as int, k as int + 1) =~= content@.subrange(
                start as int,
                k as int,
            ).push(content@[k as int]));
            out.push(content[k]);
            k = k + 1;
        }
        let ghost out1 = out@;
        let mut m: usize = 0;
        while m < e.inserted_text.len()
            invariant
                0 <= m <= e.inserted_text@.len(),
                out@ == out1 + e.inserted_text@.subrange(0, m as int),
            decreases e.inserted_text@.len() - m,
        {
            assert(e.inserted_text@.subrange(0, m as int + 1) =~= e.inserted_text@.subrange(
                0,
                m as int,
            ).push(e.inserted_text@[m as int]));
            out.push(e.inserted_text[m]);
            m = m + 1;
        }
        proof {
            assert(out1 =~= out0 + content@.subrange(start as int, pos as int));
            assert(out@ =~= out0 + content@.subrange(start as int, pos as int)
                + e.inserted_text@);
            assert(merge_spec(content@, edits@.skip(i as int), anchor as int, start as int)
                == content@.subrange(start as int, pos as int) + e.inserted_text@ + merge_spec(
                content@,
                edits@.skip(i as int + 1),
                anchor as int,
                pos + e.deleted_length,
            ));
            assert(out0 + merge_spec(content@, edits@.skip(i as int), anchor as int, start as int)
                =~= out@ + merge_spec(
                content@,
                edits@.skip(i as int + 1),
                anchor as int,
                pos + e.deleted_length,
            ));
            if i + 1 < edits@.len() {
                assert(edits@[i as int + 1].position >= edits@[i as int].position + edits@[i
                    as int].deleted_length);
            }
        }
        let n = content.len();
        assert(pos + e.deleted_length <= n);
        start = pos + e.deleted_length;
        i = i + 1;
    }
    proof {
        assert(edits@.skip(i as int) =~= Seq::<Edit>::empty());
        assert(merge_spec(content@, edits@.skip(i as int), anchor as int, start as int)
            == content@.subrange(start as int, content@.len() as int));
    }
    let ghost out2 = out@;
    let mut k: usize = start;
    while k < content.len()
        invariant
            start <= k <= content@.len(),
            out@ == out2 + content@.subrange(start as int, k as int),
        decreases content@.len() - k,
    {
        assert(content@.subrange(start as int, k as int + 1) =~= content@.subrange(
            start as int,
            k as int,
        ).push(content@[k as int]));
        out.push(content[k]);
        k = k + 1;
    }
    proof {
        assert(out@ =~= out2 + content@.subrange(start as int, content@.len() as int));
        assert(out@ =~= merge_spec(content@, edits@, anchor as int, 0));
    }
    out
}

/// Splices `edits` into `content` after checking the ordering and bounds
/// precondition, failing fast on a malformed edit list instead of
/// corrupting the output: `None` exactly when the edits are out of order,
/// overlapping, or out of bounds.
pub fn try_merge_edits(content: &Vec<u8>, edits: &Vec<Edit>, anchor: usize) -> (r: Option<
    Vec<u8>,
>)
    ensures
        match r {
            Some(merged) => edits_well_formed(edits@, anchor as int, content@.len() as int)
                && merged@ == merge_spec(content@, edits@, anchor as int, 0),
            None => !edits_well_formed(edits@, anchor as int, content@.len() as int),
        },
{
    if edits_in_order(edits, anchor, content.len()) {
        Some(merge_edits(content, edits, anchor))
    } else {
        None
    }
}

} // verus!
