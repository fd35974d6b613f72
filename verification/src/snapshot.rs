//! The snapshot store: the golden expected output for each invalid test
//! sample, kept per rule id as an ordered sequence, one slot per invalid
//! snippet index.

use vstd::prelude::*;

use crate::text::bytes_eq;
use crate::text::copy_bytes;
use crate::text::copy_opt_bytes;
use crate::text::opt_bytes_view;

verus! {

/// The stored golden output for one invalid snippet: the fix the rule is
/// expected to derive, if it derives one.
#[derive(Debug, PartialEq, Eq, Clone)]
pub struct Snapshot {
    pub fixed: Option<Vec<u8>>,
}

/// The mathematical value of a [`Snapshot`].
pub ghost struct SnapshotView {
    pub fixed: Option<Seq<u8>>,
}

impl View for Snapshot {
    type V = SnapshotView;

    open spec fn view(&self) -> SnapshotView {
        SnapshotView { fixed: opt_bytes_view(self.fixed) }
    }
}

/// The views of a sequence of snapshots.
pub open spec fn snaps_view(s: Seq<Snapshot>) -> Seq<SnapshotView> {
    s.map_values(|x: Snapshot| x@)
}

/// An owned copy of a snapshot.
pub fn copy_snapshot(s: &Snapshot) -> (r: Snapshot)
    ensures
        r@ == s@,
{
    Snapshot { fixed: copy_opt_bytes(&s.fixed) }
}

/// An owned copy of a snapshot sequence.
pub fn copy_snapshots(s: &Vec<Snapshot>) -> (r: Vec<Snapshot>)
    ensures
        snaps_view(r@) == snaps_view(s@),
{
    let mut out: Vec<Snapshot> = Vec::new();
    let mut i: usize = 0;
    while i < s.len()
        invariant
            0 <= i <= s@.len(),
            out@.len() == i,
            forall|j: int| 0 <= j < i ==> #[trigger] out@[j]@ == s@[j]@,
        decreases s@.len() - i,
    {
        let c = copy_snapshot(&s[i]);
        out.push(c);
        i = i + 1;
    }
    proof {
        assert forall|j: int| 0 <= j < s@.len() implies snaps_view(out@)[j] == snaps_view(s@)[j] by {
            assert(out@[j]@ == s@[j]@);
        }
        assert(snaps_view(out@) =~= snaps_view(s@));
    }
    out
}

/// One rule's stored snapshots: the rule id and one snapshot per invalid
/// snippet index.
#[derive(Debug, PartialEq, Eq, Clone)]
pub struct SnapshotEntry {
    pub id: Vec<u8>,
    pub snapshots: Vec<Snapshot>,
}

/// The mathematical value of a [`SnapshotEntry`].
pub ghost struct SnapshotEntryView {
    pub id: Seq<u8>,
    pub snapshots: Seq<SnapshotView>,
}

impl View for SnapshotEntry {
    type V = SnapshotEntryView;

    open spec fn view(&self) -> SnapshotEntryView {
        SnapshotEntryView { id: self.id@, snapshots: snaps_view(self.snapshots@) }
    }
}

/// The first entry for `id`, if one exists.
pub open spec fn lookup(entries: Seq<SnapshotEntryView>, id: Seq<u8>) -> Option<Seq<SnapshotView>>
    decreases entries.len(),
{
    if entries.len() == 0 {
        None
    } else if entries[0].id == id {
        Some(entries[0].snapshots)
    } else {
        lookup(entries.skip(1), id)
    }
}

/// `entries` with the snapshots of the first entry for `id` replaced, or
/// with a new entry for `id` appended when none exists.
pub open spec fn set_spec(
    entries: Seq<SnapshotEntryView>,
    id: Seq<u8>,
    snaps: Seq<SnapshotView>,
) -> Seq<SnapshotEntryView>
    decreases entries.len(),
{
    if entries.len() == 0 {
        seq![SnapshotEntryView { id, snapshots: snaps }]
    } else if entries[0].id == id {
        seq![SnapshotEntryView { id, snapshots: snaps }] + entries.skip(1)
    } else {
        seq![entries[0]] + set_spec(entries.skip(1), id, snaps)
    }
}

proof fn lemma_set_spec_found(
    entries: Seq<SnapshotEntryView>,
    id: Seq<u8>,
    snaps: Seq<SnapshotView>,
    idx: int,
)
    requires
        0 <= idx < entries.len(),
        entries[idx].id == id,
        forall|j: int| 0 <= j < idx ==> #[trigger] entries[j].id != id,
    ensures
        set_spec(entries, id, snaps) =~= entries.update(
            idx,
            SnapshotEntryView { id, snapshots: snaps },
        ),
    decreases idx,
{
    if idx == 0 {
        assert(set_spec(entries, id, snaps) =~= entries.update(
            0,
            SnapshotEntryView { id, snapshots: snaps },
        ));
    } else {
        lemma_set_spec_found(entries.skip(1), id, snaps, idx - 1);
        assert(seq![entries[0]] + entries.skip(1).update(
            idx - 1,
            SnapshotEntryView { id, snapshots: snaps },
        ) =~= entries.update(idx, SnapshotEntryView { id, snapshots: snaps }));
    }
}

proof fn lemma_set_spec_absent(entries: Seq<SnapshotEntryView>, id: Seq<u8>, snaps: Seq<SnapshotView>)
    requires
        forall|j: int| 0 <= j < entries.len() ==> #[trigger] entries[j].id != id,
    ensures
        set_spec(entries, id, snaps) =~= entries.push(
            SnapshotEntryView { id, snapshots: snaps },
        ),
    decreases entries.len(),
{
    if entries.len() == 0 {
    } else {
        lemma_set_spec_absent(entries.skip(1), id, snaps);
        assert(seq![entries[0]] + entries.skip(1).push(
            SnapshotEntryView { id, snapshots: snaps },
        ) =~= entries.push(SnapshotEntryView { id, snapshots: snaps }));
    }
}

/// Replacing the snapshots stored for `id` makes exactly those snapshots
/// the stored ones.
pub proof fn lemma_lookup_set(entries: Seq<SnapshotEntryView>, id: Seq<u8>, snaps: Seq<SnapshotView>)
    ensures
        lookup(set_spec(entries, id, snaps), id) == Some(snaps),
    decreases entries.len(),
{
    if entries.len() == 0 {
    } else if entries[0].id == id {
    } else {
        lemma_lookup_set(entries.skip(1), id, snaps);
        let s2 = seq![entries[0]] + set_spec(entries.skip(1), id, snaps);
        assert(s2[0] == entries[0]);
        assert(s2.skip(1) =~= set_spec(entries.skip(1), id, snaps));
    }
}

/// Replacing the snapshots stored for `id` leaves every other rule's
/// stored snapshots untouched.
pub proof fn lemma_lookup_set_other(
    entries: Seq<SnapshotEntryView>,
    id: Seq<u8>,
    snaps: Seq<SnapshotView>,
    other: Seq<u8>,
)
    requires
        other != id,
    ensures
        lookup(set_spec(entries, id, snaps), other) == lookup(entries, other),
    decreases entries.len(),
{
    if entries.len() == 0 {
        let s2 = seq![SnapshotEntryView { id, snapshots: snaps }];
        assert(set_spec(entries, id, snaps) =~= s2);
        assert(s2[0].id == id);
        assert(s2.skip(1) =~= Seq::<SnapshotEntryView>::empty());
        assert(lookup(s2, other) == lookup(s2.skip(1), other));
    } else if entries[0].id == id {
        let s2 = seq![SnapshotEntryView { id, snapshots: snaps }] + entries.skip(1);
        assert(set_spec(entries, id, snaps) =~= s2);
        assert(s2[0].id == id);
        assert(s2.skip(1) =~= entries.skip(1));
        assert(lookup(s2, other) == lookup(entries.skip(1), other));
        assert(lookup(entries, other) == lookup(entries.skip(1), other));
    } else {
        lemma_lookup_set_other(entries.skip(1), id, snaps, other);
        let s2 = seq![entries[0]] + set_spec(entries.skip(1), id, snaps);
        assert(set_spec(entries, id, snaps) =~= s2);
        assert(s2[0] == entries[0]);
        assert(s2.skip(1) =~= set_spec(entries.skip(1), id, snaps));
        if entries[0].id == other {
            assert(lookup(s2, other) == Some(entries[0].snapshots));
            assert(lookup(entries, other) == Some(entries[0].snapshots));
        } else {
            assert(lookup(s2, other) == lookup(set_spec(entries.skip(1), id, snaps), other));
            assert(lookup(entries, other) == lookup(entries.skip(1), other));
        }
    }
}

/// No two entries share a rule id.
pub open spec fn unique_ids(entries: Seq<SnapshotEntryView>) -> bool {
    forall|i: int, j: int| 0 <= i < j < entries.len()
        ==> #[trigger] entries[i].id != #[trigger] entries[j].id
}

/// The snapshot collection: a mapping from rule id to that rule's ordered
/// snapshot sequence. Loaded once at start and mutated only by merging
/// accepted updates.
#[derive(Debug, PartialEq, Eq, Clone)]
pub struct SnapshotCollection {
    pub entries: Vec<SnapshotEntry>,
}

impl View for SnapshotCollection {
    type V = Seq<SnapshotEntryView>;

    open spec fn view(&self) -> Seq<SnapshotEntryView> {
        self.entries@.map_values(|e: SnapshotEntry| e@)
    }
}

impl SnapshotCollection {
    /// The collection is well formed when no rule id occurs twice.
    pub open spec fn wf(&self) -> bool {
        unique_ids(self@)
    }

    /// An empty collection.
    pub fn new() -> (r: SnapshotCollection)
        ensures
            r@ =~= Seq::<SnapshotEntryView>::empty(),
            r.wf(),
    {
        SnapshotCollection { entries: Vec::new() }
    }

    /// The stored snapshots of the first entry for `id`, if any.
    pub fn get(&self, id: &Vec<u8>) -> (r: Option<&Vec<Snapshot>>)
        ensures
            match r {
                Some(v) => lookup(self@, id@) == Some(snaps_view(v@)),
                None => lookup(self@, id@) is None,
            },
    {
        let mut i: usize = 0;
        proof {
            assert(self@.skip(0) =~= self@);
        }
        while i < self.entries.len()
            invariant
                0 <= i <= self.entries@.len(),
                self@.len() == self.entries@.len(),
                lookup(self@, id@) == lookup(self@.skip(i as int), id@),
            decreases self.entries@.len() - i,
        {
            proof {
                assert(self@.skip(i as int)[0] == self@[i as int]);
                assert(self@.skip(i as int).skip(1) =~= self@.skip(i as int + 1));
            }
            if bytes_eq(&self.entries[i].id, id) {
                return Some(&self.entries[i].snapshots);
            }
            i = i + 1;
        }
        proof {
            assert(self@.skip(i as int) =~= Seq::<SnapshotEntryView>::empty());
        }
        None
    }

    /// Replaces the snapshots stored for `id`, or appends a new entry for
    /// `id` when none exists. Well-formedness is preserved.
    pub fn set(&mut self, id: &Vec<u8>, snaps: Vec<Snapshot>)
        ensures
            final(self)@ == set_spec(old(self)@, id@, snaps_view(snaps@)),
            old(self).wf() ==> final(self).wf(),
    {
        let ghost snapsv = snaps_view(snaps@);
        let mut i: usize = 0;
        while i < self.entries.len()
            invariant
                *self == *old(self),
                0 <= i <= self.entries@.len(),
                self@.len() == self.entries@.len(),
                snaps_view(snaps@) == snapsv,
                forall|j: int| 0 <= j < i ==> #[trigger] self@[j].id != id@,
            decreases self.entries@.len() - i,
        {
            if bytes_eq(&self.entries[i].id, id) {
                let copied_id = copy_bytes(id);
                proof {
                    assert(snaps_view(snaps@) == snapsv);
                }
                let new_entry = SnapshotEntry { id: copied_id, snapshots: snaps };
                proof {
                    assert(new_entry@.snapshots == snaps_view(new_entry.snapshots@));
                }
                let ghost nev = new_entry@;
                self.entries[i] = new_entry;
                proof {
                    assert(nev.id == id@);
                    assert(nev.snapshots == snapsv);
                    assert(nev == SnapshotEntryView { id: id@, snapshots: snapsv });
                    assert(self@ =~~= old(self)@.update(i as int, nev));
                    lemma_set_spec_found(old(self)@, id@, snapsv, i as int);
                    if old(self).wf() {
                        assert(forall|j: int| 0 <= j < self@.len()
                            ==> #[trigger] self@[j].id == old(self)@[j].id);
                        assert(unique_ids(self@));
                    }
                }
                return ;
            }
            i = i + 1;
        }
        let new_entry = SnapshotEntry { id: copy_bytes(id), snapshots: snaps };
        let ghost nev = new_entry@;
        self.entries.push(new_entry);
        proof {
            assert(nev == SnapshotEntryView { id: id@, snapshots: snapsv });
            assert(self@ =~~= old(self)@.push(nev));
            lemma_set_spec_absent(old(self)@, id@, snapsv);
            if old(self).wf() {
                assert forall|a: int, b: int| 0 <= a < b < self@.len() implies self@[a].id
                    != self@[b].id by {
                    if b == self@.len() - 1 {
                        assert(self@[a].id != id@);
                    }
                }
            }
        }
    }
}

} // verus!
