//! The migration runner.
use vstd::prelude::*;
use crate::laws::{law_fresh_store_reaches_newest, law_success_reaches_newest};
use crate::model::{run, run_from, start_of, Outcome, StoreModel, VersionProbe};
use crate::registry::{
    first_outstanding, registry_is_valid, strictly_ascending, valid_registry, versions_of, Migration,
};
use crate::store::{
    added, applied, aborted, aborted_at, apply_migration, grown, lemma_append_parts, lemma_grown_parts,
    no_failure, probe_len, probe_of, read_version, reads_version, script, Exchange, Reply, Store,
};

verus! {

/// Why a call of `migrate` failed.
#[derive(Debug, PartialEq, Eq)]
pub enum MigrationError {
    /// The registry is empty, out of order, holds a version twice or a
    /// version below 1. Found before the store is touched.
    Configuration,
    /// The store could not be used; no migration was attempted.
    Connection,
    /// The version record exists but could not be read.
    VersionRead,
    /// The migration `version` failed and was rolled back; `detail` is the
    /// store's own report of the failure.
    Execution { version: i64, detail: String },
}

/// The outcome that a result of `migrate` stands for.
pub open spec fn outcome_of(r: Result<i64, MigrationError>) -> Outcome {
    match r {
        Ok(v) => Outcome::Migrated(v),
        Err(MigrationError::Configuration) => Outcome::Configuration,
        Err(MigrationError::Connection) => Outcome::Connection,
        Err(MigrationError::VersionRead) => Outcome::VersionRead,
        Err(MigrationError::Execution { version, .. }) => Outcome::Execution(version),
    }
}

impl MigrationError {
    /// A one-line description; for a failed migration, the store's report.
    pub fn message(&self) -> (r: String)
        ensures
            self is Configuration ==> r@ == "invalid migration registry"@,
            self is Connection ==> r@ == "the store cannot be used"@,
            self is VersionRead ==> r@ == "the stored schema version cannot be read"@,
            self matches MigrationError::Execution { detail, .. } ==> r@ == detail@,
    {
        match self {
            MigrationError::Configuration => "invalid migration registry".to_owned(),
            MigrationError::Connection => "the store cannot be used".to_owned(),
            MigrationError::VersionRead => "the stored schema version cannot be read".to_owned(),
            MigrationError::Execution { detail, .. } => detail.clone(),
        }
    }
}

/// The version to start from, given what reading the version record found:
/// no record counts as version 0.
pub fn starting_version(probe: VersionProbe) -> (r: Result<i64, MigrationError>)
    ensures
        match r {
            Ok(v) => start_of(probe) == Ok::<i64, Outcome>(v),
            Err(e) => start_of(probe) == Err::<i64, Outcome>(outcome_of(Err(e))),
        },
{
    match probe {
        VersionProbe::Absent => Ok(crate::model::UNINITIALIZED),
        VersionProbe::Present(v) => Ok(v),
        VersionProbe::Unreadable => Err(MigrationError::VersionRead),
        VersionProbe::Unreachable => Err(MigrationError::Connection),
    }
}

/// Walks the registry from position `i` with the store at version `cur`,
/// reading `log` as the requests made and their answers: each migration
/// that is not newer is passed over, each newer one must show its whole
/// script applied, or an aborted script that ends the log. `None` where the
/// log is not such a walk.
pub open spec fn walk(ms: Seq<Migration>, i: int, cur: i64, log: Seq<Exchange>) -> Option<Outcome>
    decreases ms.len() - i,
{
    if i < 0 || i >= ms.len() {
        if log.len() == 0 {
            Some(Outcome::Migrated(cur))
        } else {
            None
        }
    } else if ms[i].version <= cur {
        walk(ms, i + 1, cur, log)
    } else {
        let n = script(ms[i]).len() as int;
        if n <= log.len() && applied(log.take(n), ms[i]) {
            walk(ms, i + 1, ms[i].version, log.skip(n))
        } else if aborted(log, ms[i]) {
            Some(Outcome::Execution(ms[i].version))
        } else {
            None
        }
    }
}

/// Reads the requests of one call of `migrate` on a valid registry: first
/// the reading of the version, then the walk from the version read. Gives
/// the outcome they lead to, or `None` where they are not such a call.
pub open spec fn migration_log(ms: Seq<Migration>, log: Seq<Exchange>) -> Option<Outcome> {
    let pl = probe_len(log);
    if log.len() < pl || !reads_version(log.take(pl)) {
        None
    } else {
        match start_of(probe_of(log)) {
            Err(o) => if log.len() == pl {
                Some(o)
            } else {
                None
            },
            Ok(cur) => walk(ms, 0, cur, log.skip(pl)),
        }
    }
}

/// The migrations that failed in a run with this outcome.
pub open spec fn failed_set(o: Outcome) -> Set<i64> {
    match o {
        Outcome::Execution(v) => set![v],
        _ => Set::empty(),
    }
}

proof fn lemma_walk_skip(ms: Seq<Migration>, i: int, k: int, cur: i64, log: Seq<Exchange>)
    requires
        0 <= i <= k <= ms.len(),
        forall|j: int| i <= j < k ==> ms[j].version <= cur,
    ensures
        walk(ms, i, cur, log) == walk(ms, k, cur, log),
    decreases k - i,
{
    if i < k {
        lemma_walk_skip(ms, i + 1, k, cur, log);
    }
}

/// A walk that reads the requests as a run has the outcome of the model's
/// run on a store where exactly the reported migration fails.
proof fn lemma_walk_is_run(ms: Seq<Migration>, i: int, cur: i64, log: Seq<Exchange>, store: StoreModel)
    requires
        strictly_ascending(versions_of(ms)),
        0 <= i <= ms.len(),
        walk(ms, i, cur, log) is Some,
        store.failing == failed_set(walk(ms, i, cur, log)->Some_0),
    ensures
        walk(ms, i, cur, log)->Some_0 == run_from(versions_of(ms), i, cur, store).outcome,
        walk(ms, i, cur, log)->Some_0 matches Outcome::Execution(w) ==> w > cur,
    decreases ms.len() - i,
{
    let vs = versions_of(ms);
    if i < ms.len() {
        assert(vs[i] == ms[i].version);
        if ms[i].version <= cur {
            lemma_walk_skip(ms, i, i + 1, cur, log);
            lemma_walk_is_run(ms, i + 1, cur, log, store);
        } else {
            let n = script(ms[i]).len() as int;
            if n <= log.len() && applied(log.take(n), ms[i]) {
                let next = StoreModel { probe: VersionProbe::Present(vs[i]), failing: store.failing };
                lemma_walk_is_run(ms, i + 1, ms[i].version, log.skip(n), next);
            }
        }
    }
}

/// Brings the store up to the newest migration of `registry`.
///
/// The registry is checked first; an invalid one is refused without a
/// request to the store. Then the stored version is read, and each
/// migration newer than it is applied in registry order, each in its own
/// transaction that also records its version. The first failure ends the
/// call. On success the result is the version the store now stands at.
///
/// The log of the call reads as a run of the model (`migration_log`), and
/// its outcome is that of the model's run on the store whose version record
/// was read and on which exactly the reported migration fails. So the laws
/// proved of the model hold of each call.
pub fn migrate(s: &mut Store, registry: &Vec<Migration>) -> (r: Result<i64, MigrationError>)
    ensures
        grown(old(s).log@, final(s).log@),
        (r matches Err(MigrationError::Configuration)) <==> !valid_registry(versions_of(registry@)),
        !valid_registry(versions_of(registry@)) ==> final(s).log@ == old(s).log@,
        valid_registry(versions_of(registry@)) ==> ({
            let new = added(old(s).log@, final(s).log@);
            &&& migration_log(registry@, new) == Some(outcome_of(r))
            &&& outcome_of(r) == run(
                versions_of(registry@),
                (StoreModel { probe: probe_of(new), failing: failed_set(outcome_of(r)) }),
            ).outcome
            &&& (r matches Err(MigrationError::Connection)) <==> new[0].reply is Failed
            &&& no_failure(new) ==> r is Ok
            &&& (probe_of(new) == VersionProbe::Absent && r is Ok) ==> r == Ok::<i64, MigrationError>(
                registry@.last().version,
            )
        }),
        r matches Ok(v) ==> forall|j: int| 0 <= j < registry@.len() ==> registry@[j].version <= v,
        r matches Err(MigrationError::Execution { version, .. }) ==> exists|j: int|
            0 <= j < registry@.len() && #[trigger] registry@[j].version == version,
{
    let ghost ms = registry@;
    let ghost vs = versions_of(ms);
    let ghost before = s.log@;
    if !registry_is_valid(registry) {
        assert(s.log@.take(s.log@.len() as int) =~= s.log@);
        return Err(MigrationError::Configuration);
    }
    let probe = read_version(s);
    let ghost reading = added(before, s.log@);
    proof {
        lemma_grown_parts(before, s.log@);
        assert(reading.take(probe_len(reading)) =~= reading);
    }
    let mut cur = match starting_version(probe) {
        Ok(v) => v,
        Err(e) => {
            proof {
                lemma_append_parts(before, reading);
                if probe is Unreadable {
                    assert(!no_failure(reading)) by { assert(reading[1].reply is Failed); }
                } else {
                    assert(!no_failure(reading)) by { assert(reading[0].reply is Failed); }
                }
            }
            return Err(e);
        },
    };
    let ghost cur0 = cur;
    let ghost mut seen: Seq<Exchange> = Seq::empty();
    let n = registry.len();
    let mut i = first_outstanding(registry, cur);
    proof {
        assert forall|tail: Seq<Exchange>| #[trigger] walk(ms, 0, cur0, seen + tail) == walk(ms, i as int, cur, tail) by {
            assert(seen + tail =~= tail);
            lemma_walk_skip(ms, 0, i as int, cur0, tail);
        }
        assert(s.log@ =~= before + reading + seen);
    }
    while i < n
        invariant
            n == registry@.len(),
            ms == registry@,
            vs == versions_of(ms),
            valid_registry(vs),
            start_of(probe) == Ok::<i64, Outcome>(cur0),
            i <= n,
            i < n ==> ms[i as int].version > cur,
            before == old(s).log@,
            reads_version(reading),
            probe == probe_of(reading),
            s.log@ == before + reading + seen,
            no_failure(seen),
            forall|tail: Seq<Exchange>| #[trigger] walk(ms, 0, cur0, seen + tail) == walk(ms, i as int, cur, tail),
        decreases n - i,
    {
        let m = &registry[i];
        let ghost at = s.log@;
        let applied_now = apply_migration(s, m);
        let ghost seg = added(at, s.log@);
        proof {
            lemma_grown_parts(at, s.log@);
        }
        match applied_now {
            Err(detail) => {
                let version = m.version;
                proof {
                    let k = choose|k: int| #[trigger] aborted_at(seg, *m, k);
                    let sn = script(*m).len() as int;
                    if sn <= seg.len() {
                        assert(seg.take(sn)[k] == seg[k]);
                        assert(!no_failure(seg.take(sn)));
                    }
                    assert(walk(ms, i as int, cur, seg) == Some(Outcome::Execution(version)));
                    assert(walk(ms, 0, cur0, seen + seg) == walk(ms, i as int, cur, seg));
                    let new = reading + (seen + seg);
                    assert(s.log@ =~= before + new);
                    lemma_append_parts(before, new);
                    assert(new[0] == reading[0]);
                    assert(new.take(probe_len(new)) =~= reading);
                    assert(new.skip(probe_len(new)) =~= seen + seg);
                    assert(new[reading.len() + seen.len() + k] == seg[k]);
                    assert(!no_failure(new));
                    let store = StoreModel { probe, failing: set![version] };
                    assert(strictly_ascending(vs));
                    lemma_walk_is_run(ms, 0, cur0, seen + seg, store);
                    assert(registry@[i as int].version == version);
                }
                return Err(MigrationError::Execution { version, detail });
            },
            Ok(()) => {
                proof {
                    let sn = script(*m).len() as int;
                    assert forall|tail: Seq<Exchange>| #[trigger] walk(ms, 0, cur0, (seen + seg) + tail)
                        == walk(ms, i + 1, m.version, tail) by {
                        assert((seen + seg) + tail =~= seen + (seg + tail));
                        assert((seg + tail).take(sn) =~= seg);
                        assert((seg + tail).skip(sn) =~= tail);
                    }
                    assert forall|j: int| 0 <= j < (seen + seg).len() implies !(#[trigger] (seen + seg)[j].reply is Failed) by {
                        if j >= seen.len() {
                            assert((seen + seg)[j] == seg[j - seen.len()]);
                        }
                    }
                    assert(s.log@ =~= before + reading + (seen + seg));
                    if i + 1 < n {
                        assert(vs[i as int] < vs[i + 1]);
                    }
                    seen = seen + seg;
                }
                cur = m.version;
            },
        }
        i = i + 1;
    }
    proof {
        assert(walk(ms, 0, cur0, seen + Seq::empty()) == Some(Outcome::Migrated(cur)));
        assert(seen + Seq::<Exchange>::empty() =~= seen);
        let new = reading + seen;
        assert(s.log@ =~= before + new);
        lemma_append_parts(before, new);
        assert(new[0] == reading[0]);
        assert(new.take(probe_len(new)) =~= reading);
        assert(new.skip(probe_len(new)) =~= seen);
        let store = StoreModel { probe, failing: Set::empty() };
        lemma_walk_is_run(ms, 0, cur0, seen, store);
        law_success_reaches_newest(vs, store);
        assert forall|j: int| 0 <= j < registry@.len() implies registry@[j].version <= cur by {
            assert(vs[j] == registry@[j].version);
        }
        if probe is Absent {
            law_fresh_store_reaches_newest(vs, store);
        }
    }
    Ok(cur)
}

} // verus!
