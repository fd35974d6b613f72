//! The reporter's decision logic: the aggregate pass/fail answer over
//! all case results, the per-kind status counts of the final summary,
//! and the snapshot action each reporter variant chooses. Printing is
//! the caller's work.

use vstd::prelude::*;

use crate::case::CaseResult;
use crate::case::CaseResultView;
use crate::case::CaseStatus;
use crate::case::CaseStatusView;
use crate::case::status_passes;
use crate::case::statuses_view;
use crate::reconcile::SnapshotAction;
use crate::reconcile::results_view;
use crate::snapshot::Snapshot;
use crate::snapshot::SnapshotCollection;
use crate::snapshot::set_spec;
use crate::snapshot::snaps_view;

verus! {

/// The kind of a status, with the payload disregarded.
pub ghost enum StatusKind {
    Validated,
    Reported,
    Wrong,
    Missing,
    Noisy,
}

/// The kind of one status.
pub open spec fn kind_of(s: CaseStatusView) -> StatusKind {
    match s {
        CaseStatusView::Validated => StatusKind::Validated,
        CaseStatusView::Reported => StatusKind::Reported,
        CaseStatusView::Wrong { source, expected, actual } => StatusKind::Wrong,
        CaseStatusView::Missing(x) => StatusKind::Missing,
        CaseStatusView::Noisy(x) => StatusKind::Noisy,
    }
}

/// How many statuses of kind `k` one result's cases hold.
pub open spec fn count_in_cases(cases: Seq<CaseStatusView>, k: StatusKind) -> nat
    decreases cases.len(),
{
    if cases.len() == 0 {
        0
    } else {
        (if kind_of(cases[0]) == k {
            1nat
        } else {
            0nat
        }) + count_in_cases(cases.skip(1), k)
    }
}

/// How many statuses of kind `k` all results together hold.
pub open spec fn count_results(results: Seq<CaseResultView>, k: StatusKind) -> nat
    decreases results.len(),
{
    if results.len() == 0 {
        0
    } else {
        count_in_cases(results[0].cases, k) + count_results(results.skip(1), k)
    }
}

/// How many statuses all results together hold.
pub open spec fn total_statuses(results: Seq<CaseResultView>) -> nat
    decreases results.len(),
{
    if results.len() == 0 {
        0
    } else {
        results[0].cases.len() + total_statuses(results.skip(1))
    }
}

/// The run passes when every status of every classified case is
/// `Validated` or `Reported`.
pub open spec fn all_passed_spec(results: Seq<CaseResultView>) -> bool {
    forall|i: int, j: int| 0 <= i < results.len() && 0 <= j < results[i].cases.len()
        ==> status_passes(#[trigger] results[i].cases[j])
}

/// The run's pass/fail answer: whether every status of every classified
/// case is `Validated` or `Reported`.
pub fn all_passed(results: &Vec<CaseResult>) -> (r: bool)
    ensures
        r == all_passed_spec(results_view(results@)),
{
    let ghost rv = results_view(results@);
    let mut i: usize = 0;
    while i < results.len()
        invariant
            0 <= i <= results@.len(),
            rv == results_view(results@),
            rv.len() == results@.len(),
            forall|a: int, b: int| 0 <= a < i && 0 <= b < rv[a].cases.len() ==> status_passes(
                #[trigger] rv[a].cases[b],
            ),
        decreases results@.len() - i,
    {
        let cases = &results[i].cases;
        let mut j: usize = 0;
        while j < cases.len()
            invariant
                0 <= i < rv.len(),
                rv == results_view(results@),
                0 <= j <= cases@.len(),
                cases == &results@[i as int].cases,
                rv[i as int].cases == statuses_view(cases@),
                forall|b: int| 0 <= b < j ==> status_passes(#[trigger] rv[i as int].cases[b]),
            decreases cases@.len() - j,
        {
            let passes = match &cases[j] {
                CaseStatus::Validated => true,
                CaseStatus::Reported => true,
                _ => false,
            };
            if !passes {
                assert(!status_passes(rv[i as int].cases[j as int]));
                return false;
            }
            j = j + 1;
        }
        i = i + 1;
    }
    true
}

/// The aggregated counts of the final summary: how many samples fell
/// under each status kind over the whole run.
#[derive(Debug, PartialEq, Eq)]
pub struct TestSummary {
    pub validated: usize,
    pub reported: usize,
    pub wrong: usize,
    pub missing: usize,
    pub noisy: usize,
}

/// Aggregates all case results into one count per status kind.
pub fn summarize(results: &Vec<CaseResult>) -> (s: TestSummary)
    requires
        total_statuses(results_view(results@)) <= usize::MAX,
    ensures
        s.validated == count_results(results_view(results@), StatusKind::Validated),
        s.reported == count_results(results_view(results@), StatusKind::Reported),
        s.wrong == count_results(results_view(results@), StatusKind::Wrong),
        s.missing == count_results(results_view(results@), StatusKind::Missing),
        s.noisy == count_results(results_view(results@), StatusKind::Noisy),
{
    let ghost rv = results_view(results@);
    let mut validated: usize = 0;
    let mut reported: usize = 0;
    let mut wrong: usize = 0;
    let mut missing: usize = 0;
    let mut noisy: usize = 0;
    let mut i: usize = 0;
    proof {
        assert(rv.skip(0) =~= rv);
    }
    while i < results.len()
        invariant
            0 <= i <= results@.len(),
            rv == results_view(results@),
            rv.len() == results@.len(),
            total_statuses(rv) <= usize::MAX,
            validated + reported + wrong + missing + noisy + total_statuses(rv.skip(i as int))
                == total_statuses(rv),
            count_results(rv, StatusKind::Validated) == validated + count_results(
                rv.skip(i as int),
                StatusKind::Validated,
            ),
            count_results(rv, StatusKind::Reported) == reported + count_results(
                rv.skip(i as int),
                StatusKind::Reported,
            ),
            count_results(rv, StatusKind::Wrong) == wrong + count_results(
                rv.skip(i as int),
                StatusKind::Wrong,
            ),
            count_results(rv, StatusKind::Missing) == missing + count_results(
                rv.skip(i as int),
                StatusKind::Missing,
            ),
            count_results(rv, StatusKind::Noisy) == noisy + count_results(
                rv.skip(i as int),
                StatusKind::Noisy,
            ),
        decreases results@.len() - i,
    {
        proof {
            assert(rv.skip(i as int)[0] == rv[i as int]);
            assert(rv[i as int] == results@[i as int]@);
            assert(rv.skip(i as int).skip(1) =~= rv.skip(i as int + 1));
        }
        let cases = &results[i].cases;
        let ghost cv = rv[i as int].cases;
        let mut j: usize = 0;
        proof {
            assert(cv.skip(0) =~= cv);
        }
        while j < cases.len()
            invariant
                0 <= j <= cases@.len(),
                rv == results_view(results@),
                0 <= i < rv.len(),
                cases == &results@[i as int].cases,
                cv == rv[i as int].cases,
                cv == statuses_view(cases@),
                total_statuses(rv) <= usize::MAX,
                validated + reported + wrong + missing + noisy + (cv.skip(j as int).len()
                    + total_statuses(rv.skip(i as int + 1))) == total_statuses(rv),
                count_results(rv, StatusKind::Validated) == validated + count_in_cases(
                    cv.skip(j as int),
                    StatusKind::Validated,
                ) + count_results(rv.skip(i as int + 1), StatusKind::Validated),
                count_results(rv, StatusKind::Reported) == reported + count_in_cases(
                    cv.skip(j as int),
                    StatusKind::Reported,
                ) + count_results(rv.skip(i as int + 1), StatusKind::Reported),
                count_results(rv, StatusKind::Wrong) == wrong + count_in_cases(
                    cv.skip(j as int),
                    StatusKind::Wrong,
                ) + count_results(rv.skip(i as int + 1), StatusKind::Wrong),
                count_results(rv, StatusKind::Missing) == missing + count_in_cases(
                    cv.skip(j as int),
                    StatusKind::Missing,
                ) + count_results(rv.skip(i as int + 1), StatusKind::Missing),
                count_results(rv, StatusKind::Noisy) == noisy + count_in_cases(
                    cv.skip(j as int),
                    StatusKind::Noisy,
                ) + count_results(rv.skip(i as int + 1), StatusKind::Noisy),
            decreases cases@.len() - j,
        {
            proof {
                assert(cv.skip(j as int)[0] == cv[j as int]);
                assert(cv[j as int] == cases@[j as int]@);
                assert(cv.skip(j as int).skip(1) =~= cv.skip(j as int + 1));
            }
            match &cases[j] {
                CaseStatus::Validated => {
                    validated = validated + 1;
                },
                CaseStatus::Reported => {
                    reported = reported + 1;
                },
                CaseStatus::Wrong { source, expected, actual } => {
                    wrong = wrong + 1;
                },
                CaseStatus::Missing(x) => {
                    missing = missing + 1;
                },
                CaseStatus::Noisy(x) => {
                    noisy = noisy + 1;
                },
            }
            j = j + 1;
        }
        proof {
            assert(cv.skip(j as int) =~= Seq::<CaseStatusView>::empty());
        }
        i = i + 1;
    }
    proof {
        assert(rv.skip(i as int) =~= Seq::<CaseResultView>::empty());
    }
    TestSummary { validated, reported, wrong, missing, noisy }
}

proof fn lemma_cases_pass_iff_counts(cases: Seq<CaseStatusView>)
    ensures
        (forall|j: int| 0 <= j < cases.len() ==> status_passes(#[trigger] cases[j])) <==> (
        count_in_cases(cases, StatusKind::Wrong) + count_in_cases(cases, StatusKind::Missing)
            + count_in_cases(cases, StatusKind::Noisy) == 0),
    decreases cases.len(),
{
    if cases.len() > 0 {
        lemma_cases_pass_iff_counts(cases.skip(1));
        let tail = cases.skip(1);
        assert(forall|j: int| 0 <= j < tail.len() ==> #[trigger] tail[j] == cases[j + 1]);
        if forall|j: int| 0 <= j < cases.len() ==> status_passes(#[trigger] cases[j]) {
            assert(status_passes(cases[0]));
            assert forall|j: int| 0 <= j < tail.len() implies status_passes(
                #[trigger] tail[j],
            ) by {
                assert(tail[j] == cases[j + 1]);
            }
        } else {
            let j = choose|j: int| 0 <= j < cases.len() && !status_passes(#[trigger] cases[j]);
            if j == 0 {
                assert(!status_passes(cases[0]));
            } else {
                assert(tail[j - 1] == cases[j]);
                assert(!status_passes(tail[j - 1]));
                assert(!(forall|m: int| 0 <= m < tail.len() ==> status_passes(
                    #[trigger] tail[m],
                )));
            }
        }
    }
}

/// The run passes exactly when its summary counts no `Wrong`, `Missing`
/// or `Noisy` sample: the pass/fail answer and the aggregated counts of
/// the final summary agree.
pub proof fn lemma_passed_iff_no_failures(results: Seq<CaseResultView>)
    ensures
        all_passed_spec(results) <==> (count_results(results, StatusKind::Wrong) + count_results(
            results,
            StatusKind::Missing,
        ) + count_results(results, StatusKind::Noisy) == 0),
    decreases results.len(),
{
    if results.len() > 0 {
        lemma_passed_iff_no_failures(results.skip(1));
        lemma_cases_pass_iff_counts(results[0].cases);
        assert(forall|j: int| 0 <= j < results.skip(1).len() ==> #[trigger] results.skip(1)[j]
            == results[j + 1]);
        if all_passed_spec(results) {
            assert(forall|j: int| 0 <= j < results[0].cases.len()
                ==> status_passes(#[trigger] results[0].cases[j]));
            assert(all_passed_spec(results.skip(1)));
        } else {
            if !all_passed_spec(results.skip(1)) {
            } else {
                let (a, b) = choose|a: int, b: int| 0 <= a < results.len() && 0 <= b
                    < results[a].cases.len() && !status_passes(#[trigger] results[a].cases[b]);
                if a > 0 {
                    assert(results.skip(1)[a - 1] == results[a]);
                    assert(!status_passes(results.skip(1)[a - 1].cases[b]));
                    assert(!all_passed_spec(results.skip(1)));
                }
            }
        }
    }
}

/// The non-interactive reporter's snapshot decision: accept every changed
/// output when the run was configured to update all snapshots, and keep
/// every snapshot otherwise.
pub fn default_snapshot_action(update_all: bool) -> (r: SnapshotAction)
    ensures
        update_all ==> r is AcceptAll,
        !update_all ==> r is AcceptNone,
{
    if update_all {
        SnapshotAction::AcceptAll
    } else {
        SnapshotAction::AcceptNone
    }
}

/// The operator's answer for one failing case.
pub enum ReviewChoice {
    Accept,
    AcceptAllRemaining,
    Reject,
}

/// The interactive reporter's review state: the snapshots accepted so
/// far and whether an accept-all shortcut has short-circuited further
/// prompting.
pub struct InteractiveReview {
    pub accepted_snapshots: SnapshotCollection,
    pub should_accept_all: bool,
}

impl InteractiveReview {
    /// A fresh review with nothing accepted.
    pub fn new() -> (r: InteractiveReview)
        ensures
            r.accepted_snapshots@ =~= Seq::<crate::snapshot::SnapshotEntryView>::empty(),
            !r.should_accept_all,
            r.accepted_snapshots.wf(),
    {
        InteractiveReview { accepted_snapshots: SnapshotCollection::new(), should_accept_all: false }
    }

    /// Whether one failing case's new output is accepted: an earlier
    /// accept-all shortcut accepts without asking, and otherwise the
    /// operator's choice decides; choosing the shortcut also accepts
    /// every remaining case.
    pub fn decide(&mut self, choice: ReviewChoice) -> (accept: bool)
        ensures
            accept == (old(self).should_accept_all || !(choice is Reject)),
            final(self).should_accept_all == (old(self).should_accept_all
                || choice is AcceptAllRemaining),
            final(self).accepted_snapshots == old(self).accepted_snapshots,
    {
        if self.should_accept_all {
            return true;
        }
        match choice {
            ReviewChoice::Accept => true,
            ReviewChoice::AcceptAllRemaining => {
                self.should_accept_all = true;
                true
            },
            ReviewChoice::Reject => false,
        }
    }

    /// Records one accepted case: the case's updated snapshots are stored
    /// under its rule id.
    pub fn accept_case(&mut self, id: &Vec<u8>, snaps: Vec<Snapshot>)
        ensures
            final(self).accepted_snapshots@ == set_spec(
                old(self).accepted_snapshots@,
                id@,
                snaps_view(snaps@),
            ),
            final(self).should_accept_all == old(self).should_accept_all,
            old(self).accepted_snapshots.wf() ==> final(self).accepted_snapshots.wf(),
    {
        self.accepted_snapshots.set(id, snaps);
    }

    /// The interactive reporter's snapshot decision: accept exactly the
    /// reviewed subset.
    pub fn into_action(self) -> (r: SnapshotAction)
        ensures
            r matches SnapshotAction::Selectively(c) && c == self.accepted_snapshots,
    {
        SnapshotAction::Selectively(self.accepted_snapshots)
    }
}

} // verus!
