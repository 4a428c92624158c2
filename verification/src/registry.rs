//! The migration registry: an ordered, immutable catalog of migration
//! records that is checked once, when it is built.

use vstd::prelude::*;
use crate::error::Error;

verus! {

/// The direction of a migration. Only the forward direction exists: no
/// rollback path is modelled.
#[derive(Clone, Copy, Debug, PartialEq, Eq, Structural)]
pub enum MigrationKind {
    Up,
}

/// One schema generation: its version, a diagnostic label, its direction
/// and the statements that establish it.
#[derive(Clone, Copy, Debug, PartialEq, Eq)]
pub struct Migration {
    pub version: i64,
    pub description: &'static str,
    pub sql: &'static str,
    pub kind: MigrationKind,
}

/// Versions are positive and grow strictly from each record to the next,
/// so none occurs twice.
pub open spec fn strictly_increasing(records: Seq<Migration>) -> bool {
    &&& forall|i: int| 0 <= i < records.len() ==> 0 < (#[trigger] records[i]).version
    &&& forall|i: int, j: int|
        0 <= i < j < records.len() ==> (#[trigger] records[i]).version < (#[trigger] records[j]).version
}

/// The version that the record at `position` has to exceed: that of the
/// record before it, or zero for the first record.
pub open spec fn floor_version(records: Seq<Migration>, position: int) -> int {
    if position == 0 {
        0
    } else {
        records[position - 1].version as int
    }
}

/// The highest version of the catalog, zero where it is empty.
pub open spec fn latest_version(records: Seq<Migration>) -> int {
    if records.len() == 0 {
        0
    } else {
        records.last().version as int
    }
}

/// `k` parts the records at or below `marker` from those above it.
pub open spec fn splits_at(records: Seq<Migration>, marker: int, k: int) -> bool {
    &&& 0 <= k <= records.len()
    &&& forall|i: int| 0 <= i < k ==> (#[trigger] records[i]).version <= marker
    &&& forall|i: int| k <= i < records.len() ==> (#[trigger] records[i]).version > marker
}

/// The position of the first record that a store at `marker` still lacks:
/// what is left once the records above the marker are taken off the end.
pub open spec fn pending_start(records: Seq<Migration>, marker: int) -> nat
    decreases records.len(),
{
    if records.len() > 0 && records.last().version > marker {
        pending_start(records.drop_last(), marker)
    } else {
        records.len()
    }
}

/// In a consistent catalog the pending records are exactly those from
/// `pending_start` on, and no other position parts the catalog so.
pub proof fn lemma_pending_start_splits(records: Seq<Migration>, marker: int)
    requires
        strictly_increasing(records),
    ensures
        splits_at(records, marker, pending_start(records, marker) as int),
        forall|k: int| splits_at(records, marker, k) ==> k == pending_start(records, marker),
    decreases records.len(),
{
    let p = pending_start(records, marker) as int;
    if records.len() > 0 && records.last().version > marker {
        let front = records.drop_last();
        assert(strictly_increasing(front)) by {
            assert forall|i: int| 0 <= i < front.len() implies 0 < (#[trigger] front[i]).version by {
                assert(front[i] == records[i]);
            }
            assert forall|i: int, j: int| 0 <= i < j < front.len() implies (#[trigger] front[i]).version
                < (#[trigger] front[j]).version by {
                assert(front[i] == records[i]);
                assert(front[j] == records[j]);
            }
        }
        lemma_pending_start_splits(front, marker);
        assert forall|i: int| 0 <= i < p implies (#[trigger] records[i]).version <= marker by {
            assert(front[i] == records[i]);
        }
        assert forall|i: int| p <= i < records.len() implies (#[trigger] records[i]).version > marker by {
            if i < front.len() {
                assert(front[i] == records[i]);
            }
        }
    } else {
        assert forall|i: int| 0 <= i < p implies (#[trigger] records[i]).version <= marker by {
            if i < records.len() - 1 {
                assert(records[i].version < records[records.len() - 1].version);
            }
        }
    }
    assert forall|k: int| splits_at(records, marker, k) implies k == p by {
        if k < p {
            assert(records[k].version <= marker);
            assert(records[k].version > marker);
        } else if p < k {
            assert(records[p].version <= marker);
            assert(records[p].version > marker);
        }
    }
}

/// A version that occurs twice, or one that is lower than a version before
/// it, makes a catalog inconsistent; so does a version that is not positive.
pub proof fn lemma_inconsistent_versions(records: Seq<Migration>, earlier: int, later: int)
    requires
        0 <= earlier <= later < records.len(),
        if earlier == later {
            records[earlier].version <= 0
        } else {
            records[later].version <= records[earlier].version
        },
    ensures
        !strictly_increasing(records),
{
}

/// A catalog of migration records whose versions have been checked to be
/// strictly increasing. It is built once and never changed afterwards.
pub struct MigrationRegistry {
    records: Vec<Migration>,
}

impl View for MigrationRegistry {
    type V = Seq<Migration>;

    closed spec fn view(&self) -> Seq<Migration> {
        self.records@
    }
}

impl MigrationRegistry {
    #[verifier::type_invariant]
    spec fn consistent(self) -> bool {
        strictly_increasing(self.records@)
    }

    /// Checks the records and keeps them in the order given.
    ///
    /// Fails on the first record whose version is not above that of its
    /// predecessor (or not above zero, for the first record), and names its
    /// position.
    pub fn new(records: Vec<Migration>) -> (built: Result<MigrationRegistry, Error>)
        ensures
            built is Ok <==> strictly_increasing(records@),
            built matches Ok(registry) ==> registry@ == records@,
            built matches Err(error) ==> {
                &&& error matches Error::RegistryInconsistency { position }
                &&& position < records@.len()
                &&& strictly_increasing(records@.take(position as int))
                &&& records@[position as int].version <= floor_version(records@, position as int)
            },
    {
        let mut i: usize = 0;
        while i < records.len()
            invariant
                i <= records.len(),
                strictly_increasing(records@.take(i as int)),
            decreases records.len() - i,
        {
            let floor: i64 = if i == 0 {
                0
            } else {
                records[i - 1].version
            };
            if records[i].version <= floor {
                proof {
                    if i == 0 {
                        assert(!(0 < records@[0].version));
                    } else {
                        assert(!(records@[i - 1].version < records@[i as int].version));
                    }
                }
                return Err(Error::RegistryInconsistency { position: i });
            }
            proof {
                let before = records@.take(i as int);
                let upto = records@.take(i + 1);
                assert forall|a: int| 0 <= a < upto.len() implies 0 < (#[trigger] upto[a]).version by {
                    if a < i {
                        assert(before[a] == upto[a]);
                    } else if i > 0 {
                        assert(before[i - 1] == upto[i - 1]);
                    }
                }
                assert forall|a: int, b: int| 0 <= a < b < upto.len() implies (#[trigger] upto[a]).version
                    < (#[trigger] upto[b]).version by {
                    if b < i {
                        assert(before[a] == upto[a]);
                        assert(before[b] == upto[b]);
                    } else if a < i - 1 {
                        assert(before[a] == upto[a]);
                        assert(before[i - 1] == upto[i - 1]);
                    }
                }
            }
            i += 1;
        }
        assert(records@.take(i as int) == records@);
        Ok(MigrationRegistry { records })
    }

    /// The number of records.
    pub fn len(&self) -> (n: usize)
        ensures
            n == self@.len(),
            strictly_increasing(self@),
    {
        proof {
            use_type_invariant(self);
        }
        self.records.len()
    }

    /// Whether the catalog holds no record at all.
    pub fn is_empty(&self) -> (empty: bool)
        ensures
            empty == (self@.len() == 0),
    {
        self.records.len() == 0
    }

    /// The record at `position`, if there is one.
    pub fn get(&self, position: usize) -> (record: Option<Migration>)
        ensures
            position < self@.len() ==> record == Some(self@[position as int]),
            position >= self@.len() ==> record is None,
    {
        if position < self.records.len() {
            Some(self.records[position])
        } else {
            None
        }
    }

    /// All records, in ascending order of version.
    pub fn records(&self) -> (records: &Vec<Migration>)
        ensures
            records@ == self@,
            strictly_increasing(self@),
    {
        proof {
            use_type_invariant(self);
        }
        &self.records
    }

    /// The highest version that the catalog knows, zero where it is empty.
    pub fn latest_version(&self) -> (version: i64)
        ensures
            version == latest_version(self@),
            version >= 0,
    {
        proof {
            use_type_invariant(self);
        }
        let n = self.records.len();
        if n == 0 {
            0
        } else {
            self.records[n - 1].version
        }
    }

    /// The position of the first record with a version above `marker`: the
    /// records from there on are the ones that a store at `marker` lacks.
    pub fn pending_from(&self, marker: i64) -> (start: usize)
        ensures
            start == pending_start(self@, marker as int),
            splits_at(self@, marker as int, start as int),
    {
        proof {
            use_type_invariant(self);
        }
        let mut i: usize = 0;
        while i < self.records.len() && self.records[i].version <= marker
            invariant
                i <= self.records.len(),
                forall|j: int| 0 <= j < i ==> (#[trigger] self.records@[j]).version <= marker,
            decreases self.records.len() - i,
        {
            i += 1;
        }
        proof {
            let records = self.records@;
            assert(splits_at(records, marker as int, i as int)) by {
                assert forall|j: int| i <= j < records.len() implies (#[trigger] records[j]).version
                    > marker by {
                    if i < j {
                        assert(records[i as int].version < records[j].version);
                    }
                }
            }
            lemma_pending_start_splits(records, marker as int);
        }
        i
    }
}

} // verus!
