//! The snapshot reconciler: decides which snapshot updates to apply after
//! a failing run and merges them into the existing collection. Writing
//! the merged collection back to disk is the caller's work.

use vstd::prelude::*;

use crate::case::CaseResult;
use crate::case::CaseResultView;
use crate::case::CaseStatus;
use crate::case::CaseStatusView;
use crate::case::statuses_view;
use crate::snapshot::SnapshotCollection;
use crate::snapshot::SnapshotEntryView;
use crate::snapshot::SnapshotView;
use crate::snapshot::copy_snapshot;
use crate::snapshot::copy_snapshots;
use crate::snapshot::lookup;
use crate::snapshot::set_spec;
use crate::snapshot::snaps_view;

verus! {

/// The reconciliation decision taken after a failing run: keep every
/// snapshot as it is, accept every changed output, or accept exactly the
/// reviewed subset.
pub enum SnapshotAction {
    AcceptAll,
    AcceptNone,
    Selectively(SnapshotCollection),
}

/// One rule's snapshots after walking its statuses in order: each `Wrong`
/// status overwrites the snapshot slot of its invalid sample with the
/// newly derived output, counted by `k`, the index of the invalid sample
/// the next status of invalid kind belongs to; other slots are left as
/// they are.
pub open spec fn upd(snaps: Seq<SnapshotView>, statuses: Seq<CaseStatusView>, k: int) -> Seq<
    SnapshotView,
>
    decreases statuses.len(),
{
    if statuses.len() == 0 {
        snaps
    } else {
        match statuses[0] {
            CaseStatusView::Wrong { source, expected, actual } => upd(
                if 0 <= k < snaps.len() {
                    snaps.update(k, actual)
                } else {
                    snaps
                },
                statuses.skip(1),
                k + 1,
            ),
            CaseStatusView::Reported => upd(snaps, statuses.skip(1), k + 1),
            CaseStatusView::Missing(s) => upd(snaps, statuses.skip(1), k + 1),
            _ => upd(snaps, statuses.skip(1), k),
        }
    }
}

/// One rule's snapshots with every `Wrong` status's newly derived output
/// accepted into the slot of its invalid sample.
pub open spec fn updated_snaps_spec(snaps: Seq<SnapshotView>, statuses: Seq<CaseStatusView>) -> Seq<
    SnapshotView,
> {
    upd(snaps, statuses, 0)
}

/// Overwrites, in a copy of `snaps`, the slot of each invalid sample
/// whose status is `Wrong` with that status's newly derived output.
pub fn update_snaps(snaps: &Vec<crate::snapshot::Snapshot>, cases: &Vec<CaseStatus>) -> (r: Vec<
    crate::snapshot::Snapshot,
>)
    ensures
        snaps_view(r@) == updated_snaps_spec(snaps_view(snaps@), statuses_view(cases@)),
{
    let mut out = copy_snapshots(snaps);
    let mut k: usize = 0;
    let mut i: usize = 0;
    proof {
        assert(statuses_view(cases@).skip(0) =~= statuses_view(cases@));
    }
    while i < cases.len()
        invariant
            0 <= i <= cases@.len(),
            k <= i,
            updated_snaps_spec(snaps_view(snaps@), statuses_view(cases@)) == upd(
                snaps_view(out@),
                statuses_view(cases@).skip(i as int),
                k as int,
            ),
        decreases cases@.len() - i,
    {
        proof {
            assert(statuses_view(cases@).skip(i as int)[0] == statuses_view(cases@)[i as int]);
            assert(statuses_view(cases@)[i as int] == cases@[i as int]@);
            assert(statuses_view(cases@).skip(i as int).skip(1) =~= statuses_view(cases@).skip(
                i as int + 1,
            ));
        }
        match &cases[i] {
            CaseStatus::Wrong { source, expected, actual } => {
                if k < out.len() {
                    let replacement = copy_snapshot(actual);
                    let ghost before = snaps_view(out@);
                    out[k] = replacement;
                    proof {
                        assert(snaps_view(out@) =~= before.update(k as int, actual@));
                    }
                }
                k = k + 1;
            },
            CaseStatus::Reported => {
                k = k + 1;
            },
            CaseStatus::Missing(s) => {
                k = k + 1;
            },
            _ => {},
        }
        i = i + 1;
    }
    proof {
        assert(statuses_view(cases@).skip(i as int) =~= Seq::<CaseStatusView>::empty());
    }
    out
}

/// The views of a sequence of case results.
pub open spec fn results_view(s: Seq<CaseResult>) -> Seq<CaseResultView> {
    s.map_values(|r: CaseResult| r@)
}

/// The collection after accepting one result's `Wrong` outputs: the entry
/// under the result's rule id, where one exists, has its snapshot
/// sequence rewritten by [`updated_snaps_spec`]; a result whose rule id
/// has no entry changes nothing.
pub open spec fn apply_result_spec(entries: Seq<SnapshotEntryView>, r: CaseResultView) -> Seq<
    SnapshotEntryView,
> {
    match lookup(entries, r.id) {
        None => entries,
        Some(snaps) => set_spec(entries, r.id, updated_snaps_spec(snaps, r.cases)),
    }
}

/// The collection after accepting every result's `Wrong` outputs, result
/// by result in input order.
pub open spec fn merge_results_spec(
    entries: Seq<SnapshotEntryView>,
    results: Seq<CaseResultView>,
) -> Seq<SnapshotEntryView>
    decreases results.len(),
{
    if results.len() == 0 {
        entries
    } else {
        merge_results_spec(apply_result_spec(entries, results[0]), results.skip(1))
    }
}

/// Accepts every result's `Wrong` outputs into `collection`.
pub fn merge_results(results: &Vec<CaseResult>, collection: SnapshotCollection) -> (r:
    SnapshotCollection)
    ensures
        r@ == merge_results_spec(collection@, results_view(results@)),
        collection.wf() ==> r.wf(),
{
    let mut merged = collection;
    let ghost orig = merged@;
    let mut i: usize = 0;
    proof {
        assert(results_view(results@).skip(0) =~= results_view(results@));
    }
    while i < results.len()
        invariant
            0 <= i <= results@.len(),
            merge_results_spec(orig, results_view(results@)) == merge_results_spec(
                merged@,
                results_view(results@).skip(i as int),
            ),
            crate::snapshot::unique_ids(orig) ==> merged.wf(),
        decreases results@.len() - i,
    {
        proof {
            assert(results_view(results@).skip(i as int)[0] == results_view(results@)[i as int]);
            assert(results_view(results@)[i as int] == results@[i as int]@);
            assert(results_view(results@).skip(i as int).skip(1) =~= results_view(results@).skip(
                i as int + 1,
            ));
        }
        let result = &results[i];
        let found = match merged.get(&result.id) {
            Some(v) => Some(copy_snapshots(v)),
            None => None,
        };
        match found {
            Some(snaps) => {
                let updated = update_snaps(&snaps, &result.cases);
                merged.set(&result.id, updated);
            },
            None => {},
        }
        i = i + 1;
    }
    proof {
        assert(results_view(results@).skip(i as int) =~= Seq::<CaseResultView>::empty());
    }
    merged
}

/// The collection after replacing, for each accepted entry in order, the
/// snapshots stored under its rule id.
pub open spec fn select_spec(
    entries: Seq<SnapshotEntryView>,
    accepted: Seq<SnapshotEntryView>,
) -> Seq<SnapshotEntryView>
    decreases accepted.len(),
{
    if accepted.len() == 0 {
        entries
    } else {
        select_spec(set_spec(entries, accepted[0].id, accepted[0].snapshots), accepted.skip(1))
    }
}

/// Replaces, entry by entry, the snapshots stored under each accepted
/// rule id.
pub fn merge_selected(accepted: &SnapshotCollection, collection: SnapshotCollection) -> (r:
    SnapshotCollection)
    ensures
        r@ == select_spec(collection@, accepted@),
        collection.wf() ==> r.wf(),
{
    let mut merged = collection;
    let ghost orig = merged@;
    let mut i: usize = 0;
    proof {
        assert(accepted@.skip(0) =~= accepted@);
    }
    while i < accepted.entries.len()
        invariant
            0 <= i <= accepted.entries@.len(),
            accepted@.len() == accepted.entries@.len(),
            select_spec(orig, accepted@) == select_spec(merged@, accepted@.skip(i as int)),
            crate::snapshot::unique_ids(orig) ==> merged.wf(),
        decreases accepted.entries@.len() - i,
    {
        proof {
            assert(accepted@.skip(i as int)[0] == accepted@[i as int]);
            assert(accepted@.skip(i as int).skip(1) =~= accepted@.skip(i as int + 1));
        }
        let entry = &accepted.entries[i];
        let snaps = copy_snapshots(&entry.snapshots);
        merged.set(&entry.id, snaps);
        i = i + 1;
    }
    proof {
        assert(accepted@.skip(i as int) =~= Seq::<SnapshotEntryView>::empty());
    }
    merged
}

proof fn lemma_upd_skip_valid(
    s: Seq<SnapshotView>,
    sts: Seq<CaseStatusView>,
    k: int,
    n: int,
)
    requires
        0 <= n <= sts.len(),
        forall|j: int| 0 <= j < n ==> (#[trigger] sts[j] is Validated || sts[j] is Noisy),
    ensures
        upd(s, sts, k) == upd(s, sts.skip(n), k),
    decreases n,
{
    if n > 0 {
        assert(sts[0] is Validated || sts[0] is Noisy);
        lemma_upd_skip_valid(s, sts.skip(1), k, n - 1);
        assert(sts.skip(1).skip(n - 1) =~= sts.skip(n));
    } else {
        assert(sts.skip(0) =~= sts);
    }
}

proof fn lemma_upd_invalid_suffix(
    case: crate::case::TestCaseView,
    invalid: Seq<crate::case::SampleMatchView>,
    snaps: Seq<SnapshotView>,
    s: Seq<SnapshotView>,
    ts: Seq<CaseStatusView>,
    k: int,
)
    requires
        invalid.len() == case.invalid.len(),
        0 <= k <= invalid.len(),
        s.len() == snaps.len(),
        forall|j: int| k <= j < snaps.len() ==> #[trigger] s[j] == snaps[j],
        ts.len() == invalid.len() - k,
        forall|j: int| 0 <= j < ts.len() ==> #[trigger] ts[j] == crate::case::invalid_status(
            case.invalid[k + j],
            invalid[k + j],
            Some(snaps),
            k + j,
        ),
    ensures
        ({
            let m = upd(s, ts, k);
            &&& m.len() == snaps.len()
            &&& forall|j: int| 0 <= j < k ==> #[trigger] m[j] == s[j]
            &&& forall|j: int| k <= j < snaps.len() ==> #[trigger] m[j] == (
            if j < invalid.len() && crate::case::invalid_status(
                case.invalid[j],
                invalid[j],
                Some(snaps),
                j,
            ) is Wrong {
                SnapshotView { fixed: invalid[j].fix }
            } else {
                snaps[j]
            })
        }),
    decreases invalid.len() - k,
{
    if k == invalid.len() {
        assert(ts.len() == 0);
        assert(upd(s, ts, k) == s);
    } else {
        let st0 = crate::case::invalid_status(case.invalid[k], invalid[k], Some(snaps), k);
        assert(ts[0] == st0);
        let s1: Seq<SnapshotView> = match st0 {
            CaseStatusView::Wrong { source, expected, actual } => s.update(k, actual),
            _ => s,
        };
        assert(st0 is Wrong ==> 0 <= k < snaps.len() && st0 == (CaseStatusView::Wrong {
            source: case.invalid[k],
            expected: snaps[k],
            actual: SnapshotView { fixed: invalid[k].fix },
        }));
        assert(upd(s, ts, k) == upd(s1, ts.skip(1), k + 1));
        assert forall|j: int| 0 <= j < ts.skip(1).len() implies #[trigger] ts.skip(1)[j]
            == crate::case::invalid_status(
            case.invalid[k + 1 + j],
            invalid[k + 1 + j],
            Some(snaps),
            k + 1 + j,
        ) by {
            assert(ts.skip(1)[j] == ts[j + 1]);
        }
        lemma_upd_invalid_suffix(case, invalid, snaps, s1, ts.skip(1), k + 1);
        let m = upd(s1, ts.skip(1), k + 1);
        if k < snaps.len() {
            assert(m[k] == s1[k]);
            if st0 is Wrong {
                assert(s1[k] == SnapshotView { fixed: invalid[k].fix });
            } else {
                assert(s1[k] == snaps[k]);
            }
        }
    }
}

/// Re-running the verifier right after accepting an update-all
/// reconciliation, with the same test cases and unchanged match
/// outcomes, classifies no sample `Wrong`: every formerly wrong snapshot
/// slot now stores exactly the output it is compared against.
pub proof fn lemma_update_all_idempotent(
    case: crate::case::TestCaseView,
    valid_fired: Seq<bool>,
    invalid: Seq<crate::case::SampleMatchView>,
    snaps: Seq<SnapshotView>,
)
    requires
        valid_fired.len() == case.valid.len(),
        invalid.len() == case.invalid.len(),
    ensures
        ({
            let sts = crate::case::classify_spec(case, valid_fired, invalid, Some(snaps));
            let merged = updated_snaps_spec(snaps, sts);
            let again = crate::case::classify_spec(case, valid_fired, invalid, Some(merged));
            forall|i: int| 0 <= i < again.len() ==> !(#[trigger] again[i] is Wrong)
        }),
{
    let nv = case.valid.len() as int;
    let sts = crate::case::classify_spec(case, valid_fired, invalid, Some(snaps));
    assert forall|j: int| 0 <= j < nv implies #[trigger] sts[j] is Validated || sts[j]
        is Noisy by {
        assert(sts[j] == crate::case::valid_status(case.valid[j], valid_fired[j]));
    }
    lemma_upd_skip_valid(snaps, sts, 0, nv);
    let ts = sts.skip(nv);
    assert(ts.len() == invalid.len());
    assert forall|j: int| 0 <= j < ts.len() implies #[trigger] ts[j]
        == crate::case::invalid_status(case.invalid[0 + j], invalid[0 + j], Some(snaps), 0 + j) by {
        assert(ts[j] == sts[nv + j]);
    }
    lemma_upd_invalid_suffix(case, invalid, snaps, snaps, ts, 0);
    let merged = updated_snaps_spec(snaps, sts);
    assert(merged == upd(snaps, ts, 0));
    let again = crate::case::classify_spec(case, valid_fired, invalid, Some(merged));
    assert forall|i: int| 0 <= i < again.len() implies !(#[trigger] again[i] is Wrong) by {
        if i < nv {
            assert(again[i] == crate::case::valid_status(case.valid[i], valid_fired[i]));
        } else {
            let kk = i - nv;
            assert(again[i] == crate::case::invalid_status(
                case.invalid[kk],
                invalid[kk],
                Some(merged),
                kk,
            ));
            let old_st = crate::case::invalid_status(case.invalid[kk], invalid[kk], Some(snaps), kk);
            if invalid[kk].fired && 0 <= kk < merged.len() {
                assert(merged.len() == snaps.len());
                if old_st is Wrong {
                    assert(merged[kk] == SnapshotView { fixed: invalid[kk].fix });
                } else {
                    assert(merged[kk] == snaps[kk]);
                    assert(snaps[kk].fixed == invalid[kk].fix);
                }
            }
        }
    }
}

/// Accepting an update-all reconciliation of one classified case
/// rewrites exactly that case's rule entry in the collection, and
/// re-running the same case against the merged collection classifies no
/// sample `Wrong`.
pub proof fn lemma_update_all_collection(
    case: crate::case::TestCaseView,
    valid_fired: Seq<bool>,
    invalid: Seq<crate::case::SampleMatchView>,
    entries: Seq<SnapshotEntryView>,
)
    requires
        valid_fired.len() == case.valid.len(),
        invalid.len() == case.invalid.len(),
        lookup(entries, case.id) is Some,
    ensures
        ({
            let snaps = lookup(entries, case.id)->0;
            let sts = crate::case::classify_spec(case, valid_fired, invalid, Some(snaps));
            let result = CaseResultView { id: case.id, cases: sts };
            let merged = merge_results_spec(entries, seq![result]);
            let again = crate::case::classify_spec(
                case,
                valid_fired,
                invalid,
                lookup(merged, case.id),
            );
            &&& lookup(merged, case.id) == Some(updated_snaps_spec(snaps, sts))
            &&& forall|other: Seq<u8>| other != case.id ==> #[trigger] lookup(merged, other)
                == lookup(entries, other)
            &&& forall|i: int| 0 <= i < again.len() ==> !(#[trigger] again[i] is Wrong)
        }),
{
    let snaps = lookup(entries, case.id)->0;
    let sts = crate::case::classify_spec(case, valid_fired, invalid, Some(snaps));
    let result = CaseResultView { id: case.id, cases: sts };
    let results = seq![result];
    assert(results.skip(1) =~= Seq::<CaseResultView>::empty());
    assert(results[0] == result);
    assert(lookup(entries, case.id) == Some(snaps));
    let merged = merge_results_spec(entries, results);
    assert(apply_result_spec(entries, result) == set_spec(
        entries,
        case.id,
        updated_snaps_spec(snaps, sts),
    ));
    assert(merge_results_spec(entries, results) == merge_results_spec(
        apply_result_spec(entries, results[0]),
        results.skip(1),
    ));
    assert(merge_results_spec(apply_result_spec(entries, result), results.skip(1))
        == apply_result_spec(entries, result));
    assert(merged == set_spec(entries, case.id, updated_snaps_spec(snaps, sts)));
    crate::snapshot::lemma_lookup_set(entries, case.id, updated_snaps_spec(snaps, sts));
    assert forall|other: Seq<u8>| other != case.id implies #[trigger] lookup(merged, other)
        == lookup(entries, other) by {
        crate::snapshot::lemma_lookup_set_other(
            entries,
            case.id,
            updated_snaps_spec(snaps, sts),
            other,
        );
    }
    lemma_update_all_idempotent(case, valid_fired, invalid, snaps);
}

/// Applies the chosen snapshot action to the results of a failing run:
/// nothing is merged and nothing is to be persisted when snapshot testing
/// was disabled or the action keeps every snapshot; otherwise the merged
/// collection to persist is returned.
pub fn apply_snapshot_action(
    action: SnapshotAction,
    results: &Vec<CaseResult>,
    snapshots: Option<SnapshotCollection>,
) -> (r: Option<SnapshotCollection>)
    ensures
        snapshots is None ==> r is None,
        action is AcceptNone ==> r is None,
        match (action, snapshots) {
            (SnapshotAction::AcceptAll, Some(c)) => match r {
                Some(merged) => merged@ == merge_results_spec(c@, results_view(results@)) && (
                c.wf() ==> merged.wf()),
                None => false,
            },
            (SnapshotAction::Selectively(sel), Some(c)) => match r {
                Some(merged) => merged@ == select_spec(c@, sel@) && (c.wf() ==> merged.wf()),
                None => false,
            },
            _ => true,
        },
{
    let Some(collection) = snapshots else {
        return None;
    };
    match action {
        SnapshotAction::AcceptNone => None,
        SnapshotAction::AcceptAll => Some(merge_results(results, collection)),
        SnapshotAction::Selectively(sel) => Some(merge_selected(&sel, collection)),
    }
}

} // verus!
