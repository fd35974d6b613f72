//! The test runner: classifies a list of evaluated test cases against the
//! rule table, skipping cases whose rule id has no entry, and plans the
//! contiguous chunk partition under which a bounded worker pool yields
//! exactly the sequential output order.
//!
//! The threads themselves live outside the library: a caller gives each
//! worker one chunk to classify with [`run_chunk`] and concatenates the
//! per-chunk results in chunk order, which [`run_chunked`] proves equal
//! to the single-threaded classification of the whole list.

use vstd::prelude::*;

use crate::case::CaseResult;
use crate::case::CaseResultView;
use crate::case::SampleMatch;
use crate::case::SampleMatchView;
use crate::case::TestCase;
use crate::case::TestCaseView;
use crate::case::classify_spec;
use crate::case::matches_view;
use crate::case::verify_test_case_simple;
use crate::reconcile::results_view;
use crate::snapshot::SnapshotCollection;
use crate::snapshot::SnapshotEntryView;
use crate::snapshot::SnapshotView;
use crate::text::id_in;

verus! {

/// One test case together with the match outcomes the external matcher
/// reported for each of its samples.
#[derive(Debug, PartialEq, Eq, Clone)]
pub struct CaseEval {
    pub case: TestCase,
    pub valid_fired: Vec<bool>,
    pub invalid_matches: Vec<SampleMatch>,
}

/// The mathematical value of a [`CaseEval`].
pub ghost struct CaseEvalView {
    pub case: TestCaseView,
    pub valid_fired: Seq<bool>,
    pub invalid_matches: Seq<SampleMatchView>,
}

impl View for CaseEval {
    type V = CaseEvalView;

    open spec fn view(&self) -> CaseEvalView {
        CaseEvalView {
            case: self.case@,
            valid_fired: self.valid_fired@,
            invalid_matches: matches_view(self.invalid_matches@),
        }
    }
}

/// An evaluation is well formed when it holds one outcome per sample.
pub open spec fn eval_wf(e: CaseEvalView) -> bool {
    e.valid_fired.len() == e.case.valid.len() && e.invalid_matches.len() == e.case.invalid.len()
}

/// The views of a sequence of evaluations.
pub open spec fn evals_view(s: Seq<CaseEval>) -> Seq<CaseEvalView> {
    s.map_values(|e: CaseEval| e@)
}

/// The entry view of an optional snapshot collection: `None` disables
/// snapshot comparison for every case.
pub open spec fn opt_coll_view(snapshots: Option<&SnapshotCollection>) -> Option<
    Seq<SnapshotEntryView>,
> {
    match snapshots {
        None => None,
        Some(c) => Some(c@),
    }
}

/// The per-rule snapshots one evaluation's classification consults.
pub open spec fn eval_snaps(e: CaseEvalView, snaps: Option<Seq<SnapshotEntryView>>) -> Option<
    Seq<SnapshotView>,
> {
    match snaps {
        None => None,
        Some(entries) => crate::snapshot::lookup(entries, e.case.id),
    }
}

/// The classification of one evaluation whose rule id is in the table.
pub open spec fn result_of(e: CaseEvalView, snaps: Option<Seq<SnapshotEntryView>>)
    -> CaseResultView {
    CaseResultView {
        id: e.case.id,
        cases: classify_spec(e.case, e.valid_fired, e.invalid_matches, eval_snaps(e, snaps)),
    }
}

/// The sequential classification of a list of evaluations in input
/// order: one result per case whose rule id is in the table; cases
/// referencing an unknown rule id contribute nothing.
pub open spec fn run_spec(
    evals: Seq<CaseEvalView>,
    rule_ids: Seq<Vec<u8>>,
    snaps: Option<Seq<SnapshotEntryView>>,
) -> Seq<CaseResultView>
    decreases evals.len(),
{
    if evals.len() == 0 {
        Seq::empty()
    } else {
        (if id_in(rule_ids, evals[0].case.id) {
            seq![result_of(evals[0], snaps)]
        } else {
            Seq::empty()
        }) + run_spec(evals.skip(1), rule_ids, snaps)
    }
}

/// Classifies the evaluations with indices in `lo .. hi`, in order.
pub fn run_chunk(
    evals: &Vec<CaseEval>,
    rule_ids: &Vec<Vec<u8>>,
    snapshots: Option<&SnapshotCollection>,
    lo: usize,
    hi: usize,
) -> (r: Vec<CaseResult>)
    requires
        lo <= hi <= evals@.len(),
        forall|j: int| 0 <= j < evals@.len() ==> eval_wf(#[trigger] evals@[j]@),
    ensures
        results_view(r@) == run_spec(
            evals_view(evals@).subrange(lo as int, hi as int),
            rule_ids@,
            opt_coll_view(snapshots),
        ),
{
    let ghost whole = evals_view(evals@).subrange(lo as int, hi as int);
    let mut out: Vec<CaseResult> = Vec::new();
    let mut i: usize = lo;
    proof {
        assert(results_view(out@) =~= Seq::<CaseResultView>::empty());
        assert(evals_view(evals@).subrange(i as int, hi as int) =~= whole);
        assert(Seq::<CaseResultView>::empty() + run_spec(whole, rule_ids@, opt_coll_view(snapshots))
            =~= run_spec(whole, rule_ids@, opt_coll_view(snapshots)));
    }
    while i < hi
        invariant
            lo <= i <= hi <= evals@.len(),
            whole == evals_view(evals@).subrange(lo as int, hi as int),
            forall|j: int| 0 <= j < evals@.len() ==> eval_wf(#[trigger] evals@[j]@),
            run_spec(whole, rule_ids@, opt_coll_view(snapshots)) == results_view(out@) + run_spec(
                evals_view(evals@).subrange(i as int, hi as int),
                rule_ids@,
                opt_coll_view(snapshots),
            ),
        decreases hi - i,
    {
        let ghost rest = evals_view(evals@).subrange(i as int, hi as int);
        proof {
            assert(rest[0] == evals_view(evals@)[i as int]);
            assert(evals_view(evals@)[i as int] == evals@[i as int]@);
            assert(rest.skip(1) =~= evals_view(evals@).subrange(i as int + 1, hi as int));
            assert(eval_wf(evals@[i as int]@));
        }
        let eval = &evals[i];
        let ghost out0 = results_view(out@);
        match verify_test_case_simple(
            &eval.case,
            &eval.valid_fired,
            &eval.invalid_matches,
            rule_ids,
            snapshots,
        ) {
            Some(result) => {
                proof {
                    assert(result@ == result_of(evals@[i as int]@, opt_coll_view(snapshots)));
                }
                out.push(result);
                proof {
                    assert(results_view(out@) =~= out0 + seq![
                        result_of(evals@[i as int]@, opt_coll_view(snapshots)),
                    ]);
                }
            },
            None => {
                proof {
                    assert(!id_in(rule_ids@, evals@[i as int]@.case.id));
                    assert(results_view(out@) =~= out0 + Seq::<CaseResultView>::empty());
                }
            },
        }
        i = i + 1;
    }
    proof {
        assert(evals_view(evals@).subrange(i as int, hi as int) =~= Seq::<CaseEvalView>::empty());
        assert(results_view(out@) + Seq::<CaseResultView>::empty() =~= results_view(out@));
    }
    out
}

/// Classifies every evaluation sequentially, in input order.
pub fn run_test_cases(
    evals: &Vec<CaseEval>,
    rule_ids: &Vec<Vec<u8>>,
    snapshots: Option<&SnapshotCollection>,
) -> (r: Vec<CaseResult>)
    requires
        forall|j: int| 0 <= j < evals@.len() ==> eval_wf(#[trigger] evals@[j]@),
    ensures
        results_view(r@) == run_spec(evals_view(evals@), rule_ids@, opt_coll_view(snapshots)),
{
    let r = run_chunk(evals, rule_ids, snapshots, 0, evals.len());
    proof {
        assert(evals_view(evals@).subrange(0, evals@.len() as int) =~= evals_view(evals@));
    }
    r
}

proof fn lemma_run_spec_concat(
    a: Seq<CaseEvalView>,
    b: Seq<CaseEvalView>,
    rule_ids: Seq<Vec<u8>>,
    snaps: Option<Seq<SnapshotEntryView>>,
)
    ensures
        run_spec(a + b, rule_ids, snaps) == run_spec(a, rule_ids, snaps) + run_spec(
            b,
            rule_ids,
            snaps,
        ),
    decreases a.len(),
{
    if a.len() == 0 {
        assert(a + b =~= b);
        assert(run_spec(a, rule_ids, snaps) + run_spec(b, rule_ids, snaps) =~= run_spec(
            b,
            rule_ids,
            snaps,
        ));
    } else {
        lemma_run_spec_concat(a.skip(1), b, rule_ids, snaps);
        assert((a + b).skip(1) =~= a.skip(1) + b);
        assert((a + b)[0] == a[0]);
        assert((if id_in(rule_ids, a[0].case.id) {
            seq![result_of(a[0], snaps)]
        } else {
            Seq::<CaseResultView>::empty()
        }) + (run_spec(a.skip(1), rule_ids, snaps) + run_spec(b, rule_ids, snaps)) =~= run_spec(
            a,
            rule_ids,
            snaps,
        ) + run_spec(b, rule_ids, snaps));
    }
}

/// Relies on num_cpus::get for the machine's logical CPU count; it is
/// documented to always return at least one.
#[verifier::external_body]
fn cpu_count() -> (r: usize)
    ensures
        r >= 1,
{
    num_cpus::get()
}

/// The worker count of the bounded pool: the machine's available
/// parallelism, capped at twelve to bound peak thread count.
pub fn worker_count() -> (r: usize)
    ensures
        1 <= r <= 12,
{
    let c = cpu_count();
    if c < 12 {
        c
    } else {
        12
    }
}

/// The length of the contiguous chunks that split `n` cases over
/// `workers` workers: the case count divided by the worker count,
/// rounded up, so at most one chunk falls to each worker; zero only when
/// there is no case at all.
pub fn chunk_size(n: usize, workers: usize) -> (r: usize)
    requires
        1 <= workers,
        n + workers <= usize::MAX,
    ensures
        r == (n + workers - 1) / workers as int,
        n > 0 ==> r >= 1,
        workers * r >= n,
{
    let r = (n + workers - 1) / workers;
    proof {
        assert(n > 0 ==> r >= 1) by (nonlinear_arith)
            requires
                1 <= workers,
                r == (n + workers - 1) as int / workers as int,
                n >= 0,
        ;
        assert(workers * r >= n) by (nonlinear_arith)
            requires
                1 <= workers,
                r == (n + workers - 1) as int / workers as int,
                n >= 0,
        ;
    }
    r
}

/// Classifies every evaluation by contiguous chunks of the worker-pool
/// partition, concatenating the per-chunk results in chunk order.
///
/// The result equals the sequential single-threaded classification of
/// the whole input list, whatever the worker count: output order is
/// independent of how the chunks are scheduled.
pub fn run_chunked(
    evals: &Vec<CaseEval>,
    rule_ids: &Vec<Vec<u8>>,
    snapshots: Option<&SnapshotCollection>,
    workers: usize,
) -> (r: Vec<CaseResult>)
    requires
        1 <= workers,
        evals@.len() + workers <= usize::MAX,
        forall|j: int| 0 <= j < evals@.len() ==> eval_wf(#[trigger] evals@[j]@),
    ensures
        results_view(r@) == run_spec(evals_view(evals@), rule_ids@, opt_coll_view(snapshots)),
{
    let n = evals.len();
    let size = chunk_size(n, workers);
    let mut out: Vec<CaseResult> = Vec::new();
    let mut lo: usize = 0;
    proof {
        assert(evals_view(evals@).subrange(0, 0) =~= Seq::<CaseEvalView>::empty());
        assert(results_view(out@) =~= Seq::<CaseResultView>::empty());
    }
    while lo < n
        invariant
            0 <= lo <= n,
            n == evals@.len(),
            n > 0 ==> size >= 1,
            forall|j: int| 0 <= j < evals@.len() ==> eval_wf(#[trigger] evals@[j]@),
            results_view(out@) == run_spec(
                evals_view(evals@).subrange(0, lo as int),
                rule_ids@,
                opt_coll_view(snapshots),
            ),
        decreases n - lo,
    {
        let hi = if n - lo < size {
            n
        } else {
            lo + size
        };
        let mut chunk = run_chunk(evals, rule_ids, snapshots, lo, hi);
        let ghost out0 = results_view(out@);
        let ghost chunkv = results_view(chunk@);
        out.append(&mut chunk);
        proof {
            assert(results_view(out@) =~= out0 + chunkv);
            lemma_run_spec_concat(
                evals_view(evals@).subrange(0, lo as int),
                evals_view(evals@).subrange(lo as int, hi as int),
                rule_ids@,
                opt_coll_view(snapshots),
            );
            assert(evals_view(evals@).subrange(0, lo as int) + evals_view(evals@).subrange(
                lo as int,
                hi as int,
            ) =~= evals_view(evals@).subrange(0, hi as int));
        }
        lo = hi;
    }
    proof {
        assert(evals_view(evals@).subrange(0, lo as int) =~= evals_view(evals@));
    }
    out
}

} // verus!
