//! The case classifier: one rule run against one test case's valid and
//! invalid code samples, producing exactly one status per sample.
//!
//! Running the matcher over a sample is an external capability; the
//! classifier receives each sample's match outcome as a plain value and
//! decides the status, comparing derived fixes against the stored golden
//! snapshots where they exist.

use vstd::prelude::*;

use crate::snapshot::Snapshot;
use crate::snapshot::SnapshotCollection;
use crate::snapshot::SnapshotView;
use crate::snapshot::copy_snapshot;
use crate::snapshot::lookup;
use crate::snapshot::snaps_view;
use crate::text::contains_id;
use crate::text::copy_bytes;
use crate::text::copy_opt_bytes;
use crate::text::id_in;
use crate::text::opt_bytes_eq;
use crate::text::opt_bytes_view;

verus! {

/// One declared test case: a rule id, the code samples the rule must stay
/// silent on, and the samples it must report.
#[derive(Debug, PartialEq, Eq, Clone)]
pub struct TestCase {
    pub id: Vec<u8>,
    pub valid: Vec<Vec<u8>>,
    pub invalid: Vec<Vec<u8>>,
}

/// The mathematical value of a [`TestCase`].
pub ghost struct TestCaseView {
    pub id: Seq<u8>,
    pub valid: Seq<Seq<u8>>,
    pub invalid: Seq<Seq<u8>>,
}

impl View for TestCase {
    type V = TestCaseView;

    open spec fn view(&self) -> TestCaseView {
        TestCaseView {
            id: self.id@,
            valid: crate::text::views_of(self.valid@),
            invalid: crate::text::views_of(self.invalid@),
        }
    }
}

/// What the external matcher reported for one invalid sample: whether the
/// rule fired anywhere in it, and the derived fix text, if the rule
/// declares one and the match produced it.
#[derive(Debug, PartialEq, Eq, Clone)]
pub struct SampleMatch {
    pub fired: bool,
    pub fix: Option<Vec<u8>>,
}

/// The mathematical value of a [`SampleMatch`].
pub ghost struct SampleMatchView {
    pub fired: bool,
    pub fix: Option<Seq<u8>>,
}

impl View for SampleMatch {
    type V = SampleMatchView;

    open spec fn view(&self) -> SampleMatchView {
        SampleMatchView { fired: self.fired, fix: opt_bytes_view(self.fix) }
    }
}

/// The views of a sequence of sample matches.
pub open spec fn matches_view(s: Seq<SampleMatch>) -> Seq<SampleMatchView> {
    s.map_values(|m: SampleMatch| m@)
}

/// The status of one sample. Exactly one status exists per sample; no
/// other outcome is possible.
#[derive(Debug, PartialEq, Eq, Clone)]
pub enum CaseStatus {
    /// A valid sample on which the rule stayed correctly silent.
    Validated,
    /// An invalid sample on which the rule fired, with no stored snapshot
    /// to compare against, or a comparison that passed.
    Reported,
    /// An invalid sample on which the rule fired but derived output that
    /// differs from the stored snapshot.
    Wrong { source: Vec<u8>, expected: Snapshot, actual: Snapshot },
    /// An invalid sample on which the rule should have fired but did not.
    Missing(Vec<u8>),
    /// A valid sample on which the rule incorrectly fired.
    Noisy(Vec<u8>),
}

/// The mathematical value of a [`CaseStatus`].
pub ghost enum CaseStatusView {
    Validated,
    Reported,
    Wrong { source: Seq<u8>, expected: SnapshotView, actual: SnapshotView },
    Missing(Seq<u8>),
    Noisy(Seq<u8>),
}

impl View for CaseStatus {
    type V = CaseStatusView;

    open spec fn view(&self) -> CaseStatusView {
        match self {
            CaseStatus::Validated => CaseStatusView::Validated,
            CaseStatus::Reported => CaseStatusView::Reported,
            CaseStatus::Wrong { source, expected, actual } => CaseStatusView::Wrong {
                source: source@,
                expected: expected@,
                actual: actual@,
            },
            CaseStatus::Missing(s) => CaseStatusView::Missing(s@),
            CaseStatus::Noisy(s) => CaseStatusView::Noisy(s@),
        }
    }
}

/// The views of a sequence of statuses.
pub open spec fn statuses_view(s: Seq<CaseStatus>) -> Seq<CaseStatusView> {
    s.map_values(|c: CaseStatus| c@)
}

/// A sample passes when the rule behaved as declared.
pub open spec fn status_passes(s: CaseStatusView) -> bool {
    s is Validated || s is Reported
}

/// The status of a valid sample: `Validated` when the rule stayed silent,
/// `Noisy` when it fired.
pub open spec fn valid_status(snippet: Seq<u8>, fired: bool) -> CaseStatusView {
    if fired {
        CaseStatusView::Noisy(snippet)
    } else {
        CaseStatusView::Validated
    }
}

/// The status of the invalid sample at index `k`: `Missing` when the rule
/// did not fire; `Reported` when it fired and snapshot comparison is
/// disabled, no snapshot exists at this index, or the derived fix equals
/// the stored one; `Wrong` otherwise.
pub open spec fn invalid_status(
    snippet: Seq<u8>,
    m: SampleMatchView,
    snaps: Option<Seq<SnapshotView>>,
    k: int,
) -> CaseStatusView {
    if !m.fired {
        CaseStatusView::Missing(snippet)
    } else {
        match snaps {
            None => CaseStatusView::Reported,
            Some(ss) => if !(0 <= k < ss.len()) {
                CaseStatusView::Reported
            } else if ss[k].fixed == m.fix {
                CaseStatusView::Reported
            } else {
                CaseStatusView::Wrong {
                    source: snippet,
                    expected: ss[k],
                    actual: SnapshotView { fixed: m.fix },
                }
            },
        }
    }
}

/// The statuses of one test case, aligned first to the valid samples and
/// then to the invalid samples, in declaration order.
pub open spec fn classify_spec(
    case: TestCaseView,
    valid_fired: Seq<bool>,
    invalid_matches: Seq<SampleMatchView>,
    snaps: Option<Seq<SnapshotView>>,
) -> Seq<CaseStatusView> {
    Seq::new(case.valid.len(), |i: int| valid_status(case.valid[i], valid_fired[i])) + Seq::new(
        case.invalid.len(),
        |k: int| invalid_status(case.invalid[k], invalid_matches[k], snaps, k),
    )
}

/// One test case's classification: the rule id and one status per sample,
/// valid samples first, then invalid samples, in declaration order.
#[derive(Debug, PartialEq, Eq, Clone)]
pub struct CaseResult {
    pub id: Vec<u8>,
    pub cases: Vec<CaseStatus>,
}

/// The mathematical value of a [`CaseResult`].
pub ghost struct CaseResultView {
    pub id: Seq<u8>,
    pub cases: Seq<CaseStatusView>,
}

impl View for CaseResult {
    type V = CaseResultView;

    open spec fn view(&self) -> CaseResultView {
        CaseResultView { id: self.id@, cases: statuses_view(self.cases@) }
    }
}

/// The sequence view of the per-rule snapshots handed to the classifier:
/// `None` when snapshot comparison is disabled or the rule has no stored
/// snapshots.
pub open spec fn opt_snaps_view(snaps: Option<&Vec<Snapshot>>) -> Option<Seq<SnapshotView>> {
    match snaps {
        None => None,
        Some(v) => Some(snaps_view(v@)),
    }
}

/// Classifies every sample of one test case against the match outcomes
/// the external matcher reported, comparing derived fixes with the stored
/// snapshots where they exist.
pub fn classify_case(
    case: &TestCase,
    valid_fired: &Vec<bool>,
    invalid_matches: &Vec<SampleMatch>,
    snaps: Option<&Vec<Snapshot>>,
) -> (r: CaseResult)
    requires
        valid_fired@.len() == case.valid@.len(),
        invalid_matches@.len() == case.invalid@.len(),
    ensures
        r@.id == case@.id,
        r@.cases == classify_spec(
            case@,
            valid_fired@,
            matches_view(invalid_matches@),
            opt_snaps_view(snaps),
        ),
{
    let ghost target = classify_spec(
        case@,
        valid_fired@,
        matches_view(invalid_matches@),
        opt_snaps_view(snaps),
    );
    let mut cases: Vec<CaseStatus> = Vec::new();
    let mut i: usize = 0;
    while i < case.valid.len()
        invariant
            0 <= i <= case.valid@.len(),
            valid_fired@.len() == case.valid@.len(),
            cases@.len() == i,
            target == classify_spec(
                case@,
                valid_fired@,
                matches_view(invalid_matches@),
                opt_snaps_view(snaps),
            ),
            invalid_matches@.len() == case.invalid@.len(),
            forall|j: int| 0 <= j < i ==> #[trigger] cases@[j]@ == target[j],
        decreases case.valid@.len() - i,
    {
        if valid_fired[i] {
            cases.push(CaseStatus::Noisy(copy_bytes(&case.valid[i])));
        } else {
            cases.push(CaseStatus::Validated);
        }
        proof {
            assert(target[i as int] == valid_status(case@.valid[i as int], valid_fired@[i as int]));
        }
        i = i + 1;
    }
    let mut k: usize = 0;
    while k < case.invalid.len()
        invariant
            0 <= k <= case.invalid@.len(),
            valid_fired@.len() == case.valid@.len(),
            invalid_matches@.len() == case.invalid@.len(),
            cases@.len() == case.valid@.len() + k,
            target == classify_spec(
                case@,
                valid_fired@,
                matches_view(invalid_matches@),
                opt_snaps_view(snaps),
            ),
            forall|j: int| 0 <= j < cases@.len() ==> #[trigger] cases@[j]@ == target[j],
        decreases case.invalid@.len() - k,
    {
        let m = &invalid_matches[k];
        let snippet = &case.invalid[k];
        if !m.fired {
            cases.push(CaseStatus::Missing(copy_bytes(snippet)));
        } else {
            match snaps {
                None => {
                    cases.push(CaseStatus::Reported);
                },
                Some(ss) => {
                    if k >= ss.len() {
                        cases.push(CaseStatus::Reported);
                    } else {
                        let stored = &ss[k];
                        if opt_bytes_eq(&stored.fixed, &m.fix) {
                            cases.push(CaseStatus::Reported);
                        } else {
                            let status = CaseStatus::Wrong {
                                source: copy_bytes(snippet),
                                expected: copy_snapshot(stored),
                                actual: Snapshot { fixed: copy_opt_bytes(&m.fix) },
                            };
                            cases.push(status);
                        }
                    }
                },
            }
        }
        proof {
            assert(target[case.valid@.len() + k as int] == invalid_status(
                case@.invalid[k as int],
                matches_view(invalid_matches@)[k as int],
                opt_snaps_view(snaps),
                k as int,
            ));
            assert(matches_view(invalid_matches@)[k as int] == invalid_matches@[k as int]@);
        }
        k = k + 1;
    }
    proof {
        assert forall|j: int| 0 <= j < target.len() implies statuses_view(cases@)[j]
            == target[j] by {
            assert(cases@[j]@ == target[j]);
        }
        assert(statuses_view(cases@) =~= target);
    }
    CaseResult { id: copy_bytes(&case.id), cases }
}

/// Classifies one test case against the rule table: `None` exactly when
/// the case references a rule id with no entry — a configuration error
/// reported outside pass/fail counting — and the classification of every
/// sample otherwise. A present snapshot collection is consulted under the
/// case's rule id; an absent one disables snapshot comparison.
pub fn verify_test_case_simple(
    case: &TestCase,
    valid_fired: &Vec<bool>,
    invalid_matches: &Vec<SampleMatch>,
    rule_ids: &Vec<Vec<u8>>,
    snapshots: Option<&SnapshotCollection>,
) -> (r: Option<CaseResult>)
    requires
        valid_fired@.len() == case.valid@.len(),
        invalid_matches@.len() == case.invalid@.len(),
    ensures
        r is Some <==> id_in(rule_ids@, case@.id),
        match r {
            Some(res) => res@.id == case@.id && res@.cases == classify_spec(
                case@,
                valid_fired@,
                matches_view(invalid_matches@),
                case_snaps_view(*case, snapshots),
            ),
            None => true,
        },
{
    if !contains_id(rule_ids, &case.id) {
        return None;
    }
    match snapshots {
        None => Some(classify_case(case, valid_fired, invalid_matches, None)),
        Some(collection) => {
            let snaps = collection.get(&case.id);
            let r = classify_case(case, valid_fired, invalid_matches, snaps);
            proof {
                assert(opt_snaps_view(snaps) == case_snaps_view(*case, snapshots));
            }
            Some(r)
        },
    }
}

/// For a test case whose rule never matches, every valid sample is
/// classified `Validated` and every invalid sample `Missing`, whatever
/// snapshots exist.
pub proof fn lemma_never_firing_rule(
    case: TestCaseView,
    valid_fired: Seq<bool>,
    invalid_matches: Seq<SampleMatchView>,
    snaps: Option<Seq<SnapshotView>>,
)
    requires
        valid_fired.len() == case.valid.len(),
        invalid_matches.len() == case.invalid.len(),
        forall|i: int| 0 <= i < valid_fired.len() ==> !valid_fired[i],
        forall|k: int| 0 <= k < invalid_matches.len() ==> !(#[trigger] invalid_matches[k]).fired,
    ensures
        ({
            let sts = classify_spec(case, valid_fired, invalid_matches, snaps);
            &&& sts.len() == case.valid.len() + case.invalid.len()
            &&& forall|i: int| 0 <= i < case.valid.len()
                ==> #[trigger] sts[i] == CaseStatusView::Validated
            &&& forall|k: int| 0 <= k < case.invalid.len()
                ==> #[trigger] sts[case.valid.len() + k] == CaseStatusView::Missing(
                case.invalid[k],
            )
        }),
{
    let sts = classify_spec(case, valid_fired, invalid_matches, snaps);
    assert forall|k: int| 0 <= k < case.invalid.len() implies #[trigger] sts[case.valid.len()
        + k] == CaseStatusView::Missing(case.invalid[k]) by {
        assert(!invalid_matches[k].fired);
    }
}

/// For a test case whose rule always matches, with snapshot comparison
/// disabled or no snapshots stored, every valid sample is classified
/// `Noisy` and every invalid sample `Reported`.
pub proof fn lemma_always_firing_rule(
    case: TestCaseView,
    valid_fired: Seq<bool>,
    invalid_matches: Seq<SampleMatchView>,
)
    requires
        valid_fired.len() == case.valid.len(),
        invalid_matches.len() == case.invalid.len(),
        forall|i: int| 0 <= i < valid_fired.len() ==> valid_fired[i],
        forall|k: int| 0 <= k < invalid_matches.len() ==> (#[trigger] invalid_matches[k]).fired,
    ensures
        ({
            let sts = classify_spec(case, valid_fired, invalid_matches, None);
            &&& sts.len() == case.valid.len() + case.invalid.len()
            &&& forall|i: int| 0 <= i < case.valid.len()
                ==> #[trigger] sts[i] == CaseStatusView::Noisy(case.valid[i])
            &&& forall|k: int| 0 <= k < case.invalid.len()
                ==> #[trigger] sts[case.valid.len() + k] == CaseStatusView::Reported
        }),
{
    let sts = classify_spec(case, valid_fired, invalid_matches, None);
    assert forall|k: int| 0 <= k < case.invalid.len() implies #[trigger] sts[case.valid.len()
        + k] == CaseStatusView::Reported by {
        assert(invalid_matches[k].fired);
    }
}

/// The per-rule snapshots the classifier sees for `case`: `None` when
/// snapshot comparison is disabled or the collection has no entry for the
/// case's rule id.
pub open spec fn case_snaps_view(case: TestCase, snapshots: Option<&SnapshotCollection>) -> Option<
    Seq<SnapshotView>,
> {
    match snapshots {
        None => None,
        Some(c) => lookup(c@, case@.id),
    }
}

} // verus!
