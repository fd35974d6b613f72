//! The rewrite engine: given the nodes captured by a rewriter's
//! metavariable and the edits that the resolved sub-rules produced inside
//! them, computes the derived replacement text — either by splicing the
//! edits into the first capture's span or by joining the per-edit inserted
//! texts with a separator.
//!
//! Pattern parsing, metavariable extraction and sub-rule matching are
//! external capabilities: the caller extracts the capture, runs every
//! resolved sub-rule over each captured node depth-first, and hands the
//! resulting edits to [`Rewriters::compute`] in that order.

use vstd::prelude::*;

use crate::edit::Edit;
use crate::edit::edits_in_order;
use crate::edit::edits_well_formed;
use crate::edit::merge_edits;
use crate::edit::merge_spec;
use crate::text::copy_bytes;
use crate::text::id_in;

verus! {

/// A declarative sub-rewrite: a pattern naming exactly one metavariable,
/// the ordered ids of the sub-rules to apply inside its capture, and an
/// optional separator that switches composition from splicing to joining.
#[derive(Debug, PartialEq, Eq, Clone)]
pub struct Rewriters {
    pub source: Vec<u8>,
    pub rewrites: Vec<Vec<u8>>,
    pub join_by: Option<Vec<u8>>,
}

/// The error reported when an edit list reaching the merge step violates
/// the ordering and non-overlap precondition.
#[derive(Debug, PartialEq, Eq, Structural)]
pub enum RewriteError {
    EditsOutOfOrder,
}

/// The inserted texts of the edits after the first, each preceded by the
/// joiner.
pub open spec fn join_tail_spec(edits: Seq<Edit>, joiner: Seq<u8>) -> Seq<u8>
    decreases edits.len(),
{
    if edits.len() == 0 {
        Seq::empty()
    } else {
        joiner + edits[0].inserted_text@ + join_tail_spec(edits.skip(1), joiner)
    }
}

/// The inserted texts of the edits in order, separated by the joiner;
/// empty when there are no edits.
pub open spec fn join_spec(edits: Seq<Edit>, joiner: Seq<u8>) -> Seq<u8> {
    if edits.len() == 0 {
        Seq::empty()
    } else {
        edits[0].inserted_text@ + join_tail_spec(edits.skip(1), joiner)
    }
}

/// Joins the inserted texts of `edits` with `joiner` between entries.
pub fn join_inserted(edits: &Vec<Edit>, joiner: &Vec<u8>) -> (r: Vec<u8>)
    ensures
        r@ == join_spec(edits@, joiner@),
{
    let mut out: Vec<u8> = Vec::new();
    if edits.len() == 0 {
        proof {
            assert(out@ =~= join_spec(edits@, joiner@));
        }
        return out;
    }
    let mut i: usize = 0;
    let first = &edits[0];
    let mut m: usize = 0;
    while m < first.inserted_text.len()
        invariant
            edits@.len() > 0,
            first == edits@[0],
            0 <= m <= first.inserted_text@.len(),
            out@ == first.inserted_text@.subrange(0, m as int),
        decreases first.inserted_text@.len() - m,
    {
        assert(first.inserted_text@.subrange(0, m as int + 1) =~= first.inserted_text@.subrange(
            0,
            m as int,
        ).push(first.inserted_text@[m as int]));
        out.push(first.inserted_text[m]);
        m = m + 1;
    }
    i = 1;
    proof {
        assert(out@ =~= first.inserted_text@);
        assert(join_spec(edits@, joiner@) == out@ + join_tail_spec(edits@.skip(1), joiner@));
    }
    while i < edits.len()
        invariant
            1 <= i <= edits@.len(),
            join_spec(edits@, joiner@) == out@ + join_tail_spec(edits@.skip(i as int), joiner@),
        decreases edits@.len() - i,
    {
        proof {
            assert(edits@.skip(i as int)[0] == edits@[i as int]);
            assert(edits@.skip(i as int).skip(1) =~= edits@.skip(i as int + 1));
        }
        let ghost out0 = out@;
        let mut k: usize = 0;
        while k < joiner.len()
            invariant
                0 <= k <= joiner@.len(),
                out@ == out0 + joiner@.subrange(0, k as int),
            decreases joiner@.len() - k,
        {
            assert(joiner@.subrange(0, k as int + 1) =~= joiner@.subrange(0, k as int).push(
                joiner@[k as int],
            ));
            out.push(joiner[k]);
            k = k + 1;
        }
        let e = &edits[i];
        let ghost out1 = out@;
        let mut m2: usize = 0;
        while m2 < e.inserted_text.len()
            invariant
                0 <= m2 <= e.inserted_text@.len(),
                out@ == out1 + e.inserted_text@.subrange(0, m2 as int),
            decreases e.inserted_text@.len() - m2,
        {
            assert(e.inserted_text@.subrange(0, m2 as int + 1) =~= e.inserted_text@.subrange(
                0,
                m2 as int,
            ).push(e.inserted_text@[m2 as int]));
            out.push(e.inserted_text[m2]);
            m2 = m2 + 1;
        }
        proof {
            assert(out@ =~= out0 + joiner@ + e.inserted_text@);
            assert(out0 + join_tail_spec(edits@.skip(i as int), joiner@) =~= out@
                + join_tail_spec(edits@.skip(i as int + 1), joiner@));
        }
        i = i + 1;
    }
    proof {
        assert(edits@.skip(i as int) =~= Seq::<Edit>::empty());
        assert(out@ + join_tail_spec(edits@.skip(i as int), joiner@) =~= out@);
    }
    out
}

/// The sub-rule ids of `rewrites` that occur in `available`, in rewrite
/// order; unknown ids are silently dropped.
pub open spec fn resolved_ids_spec(rewrites: Seq<Vec<u8>>, available: Seq<Vec<u8>>) -> Seq<
    Seq<u8>,
>
    decreases rewrites.len(),
{
    if rewrites.len() == 0 {
        Seq::empty()
    } else if id_in(available, rewrites[0]@) {
        seq![rewrites[0]@] + resolved_ids_spec(rewrites.skip(1), available)
    } else {
        resolved_ids_spec(rewrites.skip(1), available)
    }
}

impl Rewriters {
    /// The ids under `rewrites` that resolve against the available
    /// sub-rule ids, in declaration order; ids with no entry are dropped.
    pub fn resolve_rewrites(&self, available: &Vec<Vec<u8>>) -> (r: Vec<Vec<u8>>)
        ensures
            crate::text::views_of(r@) == resolved_ids_spec(self.rewrites@, available@),
    {
        let mut out: Vec<Vec<u8>> = Vec::new();
        let mut i: usize = 0;
        proof {
            assert(self.rewrites@.skip(0) =~= self.rewrites@);
            assert(Seq::<Seq<u8>>::empty() + resolved_ids_spec(self.rewrites@, available@)
                =~= resolved_ids_spec(self.rewrites@, available@));
        }
        while i < self.rewrites.len()
            invariant
                0 <= i <= self.rewrites@.len(),
                resolved_ids_spec(self.rewrites@, available@) == crate::text::views_of(out@)
                    + resolved_ids_spec(self.rewrites@.skip(i as int), available@),
            decreases self.rewrites@.len() - i,
        {
            proof {
                assert(self.rewrites@.skip(i as int)[0] == self.rewrites@[i as int]);
                assert(self.rewrites@.skip(i as int).skip(1) =~= self.rewrites@.skip(i as int + 1));
            }
            let ghost out0 = crate::text::views_of(out@);
            if crate::text::contains_id(available, &self.rewrites[i]) {
                let copied = copy_bytes(&self.rewrites[i]);
                out.push(copied);
                proof {
                    assert(crate::text::views_of(out@) =~= out0 + seq![self.rewrites@[i as int]@]);
                }
            }
            proof {
                assert(crate::text::views_of(out@) + resolved_ids_spec(
                    self.rewrites@.skip(i as int + 1),
                    available@,
                ) =~= out0 + resolved_ids_spec(self.rewrites@.skip(i as int), available@));
            }
            i = i + 1;
        }
        proof {
            assert(self.rewrites@.skip(i as int) =~= Seq::<Vec<u8>>::empty());
            assert(crate::text::views_of(out@) + resolved_ids_spec(self.rewrites@.skip(i as int), available@)
                =~= crate::text::views_of(out@));
        }
        out
    }

    /// Computes the derived replacement text from the capture bound to
    /// this rewriter's metavariable.
    ///
    /// `capture_starts` holds the start offset of each captured node in
    /// order, `var_bytes` the text covered by the capture, and `edits` the
    /// edits the resolved sub-rules produced inside the captured nodes, in
    /// traversal order. No capture yields no value; with a separator the
    /// per-edit inserted texts are joined; otherwise the edits are spliced
    /// into `var_bytes`, anchored at the first capture's start.
    pub fn compute(&self, capture_starts: &Vec<usize>, var_bytes: &Vec<u8>, edits: &Vec<Edit>)
        -> (r: Option<Vec<u8>>)
        requires
            capture_starts@.len() > 0 && self.join_by is None ==> edits_well_formed(
                edits@,
                capture_starts@[0] as int,
                var_bytes@.len() as int,
            ),
        ensures
            r is Some <==> capture_starts@.len() > 0,
            r is Some ==> r->0@ == match self.join_by {
                Some(j) => join_spec(edits@, j@),
                None => merge_spec(var_bytes@, edits@, capture_starts@[0] as int, 0),
            },
    {
        if capture_starts.len() == 0 {
            return None;
        }
        match &self.join_by {
            Some(joiner) => Some(join_inserted(edits, joiner)),
            None => Some(merge_edits(var_bytes, edits, capture_starts[0])),
        }
    }

    /// Computes the derived replacement text after validating the edit
    /// list, failing fast on out-of-order, overlapping or out-of-bounds
    /// edits instead of splicing corrupt output.
    pub fn try_compute(&self, capture_starts: &Vec<usize>, var_bytes: &Vec<u8>, edits: &Vec<Edit>)
        -> (r: Result<Option<Vec<u8>>, RewriteError>)
        ensures
            match r {
                Ok(out) => (capture_starts@.len() > 0 && self.join_by is None
                    ==> edits_well_formed(
                    edits@,
                    capture_starts@[0] as int,
                    var_bytes@.len() as int,
                )) && (out is Some <==> capture_starts@.len() > 0) && (out is Some
                    ==> out->0@ == match self.join_by {
                    Some(j) => join_spec(edits@, j@),
                    None => merge_spec(var_bytes@, edits@, capture_starts@[0] as int, 0),
                }),
                Err(e) => e == RewriteError::EditsOutOfOrder && capture_starts@.len() > 0
                    && self.join_by is None && !edits_well_formed(
                    edits@,
                    capture_starts@[0] as int,
                    var_bytes@.len() as int,
                ),
            },
    {
        if capture_starts.len() == 0 {
            return Ok(None);
        }
        match &self.join_by {
            Some(joiner) => Ok(Some(join_inserted(edits, joiner))),
            None => {
                if edits_in_order(edits, capture_starts[0], var_bytes.len()) {
                    Ok(Some(merge_edits(var_bytes, edits, capture_starts[0])))
                } else {
                    Err(RewriteError::EditsOutOfOrder)
                }
            },
        }
    }
}

} // verus!
