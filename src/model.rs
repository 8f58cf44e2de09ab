//! An abstract store, and what a run of the migrations does to it.
//!
//! The store is seen through what the runner can observe: the result of
//! reading the schema version, and which migrations fail when applied.
use vstd::prelude::*;
use crate::registry::valid_registry;

verus! {

/// What reading the schema version of a store found.
#[derive(Clone, Copy, Debug, PartialEq, Eq, Structural)]
pub enum VersionProbe {
    /// The metadata table does not exist yet.
    Absent,
    /// The metadata table holds this version.
    Present(i64),
    /// The metadata table exists but its value could not be read.
    Unreadable,
    /// The store could not be queried at all.
    Unreachable,
}

/// How a run of the migrations ended, without the details of a failure.
#[derive(Clone, Copy, Debug, PartialEq, Eq, Structural)]
pub enum Outcome {
    /// The store stands at this version.
    Migrated(i64),
    /// The registry is empty, out of order or holds a version twice.
    Configuration,
    /// The store could not be used.
    Connection,
    /// The stored version could not be read.
    VersionRead,
    /// The migration with this version failed; it left no trace.
    Execution(i64),
}

/// A store as the runner sees it: its version record and the set of
/// migration versions whose statements fail on it.
pub struct StoreModel {
    pub probe: VersionProbe,
    pub failing: Set<i64>,
}

/// The result of a run: its outcome, the store afterwards and the versions
/// of the migrations that were attempted, in order.
pub struct Trace {
    pub outcome: Outcome,
    pub store: StoreModel,
    pub attempted: Seq<i64>,
}

/// The version that stands for a store without a metadata table; it is
/// below every real migration.
pub const UNINITIALIZED: i64 = 0;

/// The version a run starts from, or the outcome that ends it at once.
pub open spec fn start_of(probe: VersionProbe) -> Result<i64, Outcome> {
    match probe {
        VersionProbe::Absent => Ok(UNINITIALIZED),
        VersionProbe::Present(v) => Ok(v),
        VersionProbe::Unreadable => Err(Outcome::VersionRead),
        VersionProbe::Unreachable => Err(Outcome::Connection),
    }
}

/// The version a store stands at: 0 without a metadata table, and
/// unchanged by a run where it cannot be read.
pub open spec fn level(probe: VersionProbe) -> int {
    match probe {
        VersionProbe::Present(v) => v as int,
        _ => 0,
    }
}

/// Walks the registry from position `i`, with the store at version `cur`:
/// skips each migration that is not newer, applies each that is, and stops
/// at the first that fails.
pub open spec fn run_from(vs: Seq<i64>, i: int, cur: i64, store: StoreModel) -> Trace
    decreases vs.len() - i,
{
    if i < 0 || i >= vs.len() {
        Trace { outcome: Outcome::Migrated(cur), store, attempted: Seq::empty() }
    } else if vs[i] <= cur {
        run_from(vs, i + 1, cur, store)
    } else if store.failing.contains(vs[i]) {
        Trace { outcome: Outcome::Execution(vs[i]), store, attempted: seq![vs[i]] }
    } else {
        let rest = run_from(
            vs,
            i + 1,
            vs[i],
            StoreModel { probe: VersionProbe::Present(vs[i]), failing: store.failing },
        );
        Trace { outcome: rest.outcome, store: rest.store, attempted: seq![vs[i]] + rest.attempted }
    }
}

/// Migrations that are not newer than the current version are passed over
/// without effect.
pub proof fn lemma_skip_not_newer(vs: Seq<i64>, i: int, k: int, cur: i64, store: StoreModel)
    requires
        0 <= i <= k <= vs.len(),
        forall|j: int| i <= j < k ==> vs[j] <= cur,
    ensures
        run_from(vs, i, cur, store) == run_from(vs, k, cur, store),
    decreases k - i,
{
    if i < k {
        lemma_skip_not_newer(vs, i + 1, k, cur, store);
    }
}

/// One call of the runner on a registry with versions `vs` and a store.
pub open spec fn run(vs: Seq<i64>, store: StoreModel) -> Trace {
    if !valid_registry(vs) {
        Trace { outcome: Outcome::Configuration, store, attempted: Seq::empty() }
    } else {
        match start_of(store.probe) {
            Err(o) => Trace { outcome: o, store, attempted: Seq::empty() },
            Ok(cur) => run_from(vs, 0, cur, store),
        }
    }
}

} // verus!
