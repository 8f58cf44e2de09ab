//! What holds of every run of the migrations, proved over the model.
use vstd::prelude::*;
use crate::model::{level, run, run_from, start_of, Outcome, StoreModel, Trace, VersionProbe};
use crate::registry::{
    has_duplicate, lemma_duplicate_is_invalid, strictly_ascending, valid_registry, versions_of, Migration,
};
use crate::runner::{migration_log, walk};
use crate::store::{applied, probe_len, probe_of, script, sent_as, Exchange};

verus! {

/// A walk that ends in success stands at a version no lower than where it
/// began and no lower than any version it passed, and the store it leaves
/// reads back that version.
proof fn lemma_success_settles(vs: Seq<i64>, i: int, cur: i64, store: StoreModel)
    requires
        0 <= i <= vs.len(),
        start_of(store.probe) == Ok::<i64, Outcome>(cur),
        run_from(vs, i, cur, store).outcome is Migrated,
    ensures
        ({
            let t = run_from(vs, i, cur, store);
            let v = t.outcome->Migrated_0;
            &&& cur <= v
            &&& forall|j: int| i <= j < vs.len() ==> vs[j] <= v
            &&& start_of(t.store.probe) == Ok::<i64, Outcome>(v)
        }),
    decreases vs.len() - i,
{
    if i < vs.len() {
        if vs[i] <= cur {
            lemma_success_settles(vs, i + 1, cur, store);
        } else {
            let next = StoreModel { probe: VersionProbe::Present(vs[i]), failing: store.failing };
            lemma_success_settles(vs, i + 1, vs[i], next);
        }
    }
}

/// A walk over versions that are all at or below the current one changes
/// nothing and attempts nothing.
proof fn lemma_nothing_outstanding(vs: Seq<i64>, i: int, cur: i64, store: StoreModel)
    requires
        0 <= i <= vs.len(),
        forall|j: int| i <= j < vs.len() ==> vs[j] <= cur,
    ensures
        run_from(vs, i, cur, store) == (Trace {
            outcome: Outcome::Migrated(cur),
            store,
            attempted: Seq::empty(),
        }),
    decreases vs.len() - i,
{
    if i < vs.len() {
        lemma_nothing_outstanding(vs, i + 1, cur, store);
    }
}

/// From a version below the next migration, with none of the rest failing,
/// a walk applies every remaining migration.
proof fn lemma_all_applied(vs: Seq<i64>, i: int, cur: i64, store: StoreModel)
    requires
        0 <= i < vs.len(),
        strictly_ascending(vs),
        cur < vs[i],
        forall|j: int| i <= j < vs.len() ==> !store.failing.contains(vs[j]),
    ensures
        ({
            let t = run_from(vs, i, cur, store);
            &&& t.outcome == Outcome::Migrated(vs.last())
            &&& t.store.probe == VersionProbe::Present(vs.last())
            &&& t.attempted == vs.subrange(i, vs.len() as int)
        }),
    decreases vs.len() - i,
{
    let next = StoreModel { probe: VersionProbe::Present(vs[i]), failing: store.failing };
    if i + 1 < vs.len() {
        lemma_all_applied(vs, i + 1, vs[i], next);
        assert(vs.subrange(i, vs.len() as int) =~= seq![vs[i]] + vs.subrange(i + 1, vs.len() as int));
    } else {
        assert(run_from(vs, i + 1, vs[i], next).store == next);
        assert(vs.subrange(i, vs.len() as int) =~= seq![vs[i]]);
    }
}

/// From a version below the next migration, a walk applies migrations up to
/// the first failing one, and stops there.
proof fn lemma_stops_at_failure(vs: Seq<i64>, i: int, k: int, cur: i64, store: StoreModel)
    requires
        0 <= i <= k < vs.len(),
        strictly_ascending(vs),
        cur < vs[i],
        store.failing.contains(vs[k]),
        forall|j: int| i <= j < k ==> !store.failing.contains(vs[j]),
    ensures
        ({
            let t = run_from(vs, i, cur, store);
            &&& t.outcome == Outcome::Execution(vs[k])
            &&& t.store.probe == (if k == i { store.probe } else { VersionProbe::Present(vs[k - 1]) })
            &&& t.attempted == vs.subrange(i, k + 1)
        }),
    decreases k - i,
{
    if i < k {
        let next = StoreModel { probe: VersionProbe::Present(vs[i]), failing: store.failing };
        lemma_stops_at_failure(vs, i + 1, k, vs[i], next);
        assert(vs.subrange(i, k + 1) =~= seq![vs[i]] + vs.subrange(i + 1, k + 1));
    } else {
        assert(vs.subrange(i, k + 1) =~= seq![vs[i]]);
    }
}

/// A walk leaves the store at a level no lower than it found.
proof fn lemma_walk_never_lowers(vs: Seq<i64>, i: int, cur: i64, store: StoreModel)
    requires
        level(store.probe) <= cur,
    ensures
        level(store.probe) <= level(run_from(vs, i, cur, store).store.probe),
    decreases vs.len() - i,
{
    if 0 <= i < vs.len() {
        if vs[i] <= cur {
            lemma_walk_never_lowers(vs, i + 1, cur, store);
        } else if !store.failing.contains(vs[i]) {
            let next = StoreModel { probe: VersionProbe::Present(vs[i]), failing: store.failing };
            lemma_walk_never_lowers(vs, i + 1, vs[i], next);
        }
    }
}

/// A successful run ends at a version no lower than any in the registry.
pub proof fn law_success_reaches_newest(vs: Seq<i64>, s: StoreModel)
    requires
        run(vs, s).outcome is Migrated,
    ensures
        forall|j: int| 0 <= j < vs.len() ==> vs[j] <= run(vs, s).outcome->Migrated_0,
{
    lemma_success_settles(vs, 0, start_of(s.probe)->Ok_0, s);
}

/// On a store without a metadata table, where no migration fails, one run
/// applies every migration in registry order and leaves the store with a
/// metadata table that holds the highest version.
pub proof fn law_fresh_store_reaches_newest(vs: Seq<i64>, s: StoreModel)
    requires
        valid_registry(vs),
        s.probe == VersionProbe::Absent,
        forall|j: int| 0 <= j < vs.len() ==> !s.failing.contains(vs[j]),
    ensures
        run(vs, s).outcome == Outcome::Migrated(vs.last()),
        run(vs, s).store.probe == VersionProbe::Present(vs.last()),
        run(vs, s).attempted == vs,
{
    lemma_all_applied(vs, 0, 0, s);
    assert(vs.subrange(0, vs.len() as int) =~= vs);
}

/// Running twice with the same registry, after a first run that succeeded,
/// attempts nothing the second time and leaves store and outcome as they
/// were.
pub proof fn law_second_run_is_noop(vs: Seq<i64>, s: StoreModel)
    requires
        valid_registry(vs),
        run(vs, s).outcome is Migrated,
    ensures
        run(vs, run(vs, s).store).attempted == Seq::<i64>::empty(),
        run(vs, run(vs, s).store).store == run(vs, s).store,
        run(vs, run(vs, s).store).outcome == run(vs, s).outcome,
{
    let cur = start_of(s.probe)->Ok_0;
    lemma_success_settles(vs, 0, cur, s);
    let t = run(vs, s);
    let v = t.outcome->Migrated_0;
    lemma_nothing_outstanding(vs, 0, v, t.store);
}

/// A registry with a repeated version is refused before any migration is
/// attempted, and the store is left as it was.
pub proof fn law_duplicate_refused(vs: Seq<i64>, s: StoreModel)
    requires
        has_duplicate(vs),
    ensures
        run(vs, s).outcome == Outcome::Configuration,
        run(vs, s).attempted == Seq::<i64>::empty(),
        run(vs, s).store == s,
{
    lemma_duplicate_is_invalid(vs);
}

/// On a store without a metadata table, when the migration at position `k`
/// fails and none before it does, the run reports that migration, the
/// store keeps the version of the one before it, and no later migration is
/// attempted.
pub proof fn law_failure_is_contained(vs: Seq<i64>, s: StoreModel, k: int)
    requires
        valid_registry(vs),
        s.probe == VersionProbe::Absent,
        0 < k < vs.len(),
        s.failing.contains(vs[k]),
        forall|j: int| 0 <= j < k ==> !s.failing.contains(vs[j]),
    ensures
        run(vs, s).outcome == Outcome::Execution(vs[k]),
        run(vs, s).store.probe == VersionProbe::Present(vs[k - 1]),
        run(vs, s).attempted == vs.subrange(0, k + 1),
{
    lemma_stops_at_failure(vs, 0, k, 0, s);
}

/// Across two runs, the second with a registry that extends the first, the
/// stored version never goes down.
pub proof fn law_version_never_decreases(vs1: Seq<i64>, vs2: Seq<i64>, s: StoreModel)
    requires
        vs1.len() <= vs2.len(),
        vs2.subrange(0, vs1.len() as int) == vs1,
    ensures
        level(s.probe) <= level(run(vs1, s).store.probe),
        level(run(vs1, s).store.probe) <= level(run(vs2, run(vs1, s).store).store.probe),
{
    lemma_run_never_lowers(vs1, s);
    lemma_run_never_lowers(vs2, run(vs1, s).store);
}

/// One run leaves the store at a level no lower than it found.
proof fn lemma_run_never_lowers(vs: Seq<i64>, s: StoreModel)
    ensures
        level(s.probe) <= level(run(vs, s).store.probe),
{
    if valid_registry(vs) {
        if let Ok(cur) = start_of(s.probe) {
            lemma_walk_never_lowers(vs, 0, cur, s);
        }
    }
}

/// The requests that apply, in registry order, each migration from
/// position `i` on that is newer than the version reached before it.
pub open spec fn outstanding_scripts(ms: Seq<Migration>, i: int, cur: i64) -> Seq<(Seq<char>, Option<i64>)>
    decreases ms.len() - i,
{
    if i < 0 || i >= ms.len() {
        Seq::empty()
    } else if ms[i].version <= cur {
        outstanding_scripts(ms, i + 1, cur)
    } else {
        script(ms[i]) + outstanding_scripts(ms, i + 1, ms[i].version)
    }
}

proof fn lemma_walk_sends_scripts(ms: Seq<Migration>, i: int, cur: i64, log: Seq<Exchange>)
    requires
        0 <= i <= ms.len(),
        walk(ms, i, cur, log) matches Some(Outcome::Migrated(_)),
    ensures
        sent_as(log, outstanding_scripts(ms, i, cur)),
    decreases ms.len() - i,
{
    if i < ms.len() {
        if ms[i].version <= cur {
            lemma_walk_sends_scripts(ms, i + 1, cur, log);
        } else {
            let n = script(ms[i]).len() as int;
            let rest = log.skip(n);
            lemma_walk_sends_scripts(ms, i + 1, ms[i].version, rest);
            let head = log.take(n);
            let reqs = outstanding_scripts(ms, i, cur);
            assert(applied(head, ms[i]));
            assert(log =~= head + rest);
            assert forall|j: int| 0 <= j < log.len() implies #[trigger] log[j].sql == reqs[j].0
                && log[j].param == reqs[j].1 by {
                if j < n {
                    assert(log[j] == head[j]);
                } else {
                    assert(log[j] == rest[j - n]);
                }
            }
        }
    }
}

/// A call that succeeds sends, after reading the version, exactly the
/// scripts of the migrations newer than the version read, each once and in
/// registry order.
pub proof fn law_success_sends_outstanding_scripts(ms: Seq<Migration>, log: Seq<Exchange>, cur: i64)
    requires
        migration_log(ms, log) matches Some(Outcome::Migrated(_)),
        start_of(probe_of(log)) == Ok::<i64, Outcome>(cur),
    ensures
        sent_as(log.skip(probe_len(log)), outstanding_scripts(ms, 0, cur)),
{
    lemma_walk_sends_scripts(ms, 0, cur, log.skip(probe_len(log)));
}

proof fn lemma_walk_all_done(ms: Seq<Migration>, i: int, cur: i64, log: Seq<Exchange>)
    requires
        0 <= i <= ms.len(),
        forall|j: int| i <= j < ms.len() ==> ms[j].version <= cur,
        walk(ms, i, cur, log) is Some,
    ensures
        log.len() == 0,
        walk(ms, i, cur, log) == Some(Outcome::Migrated(cur)),
    decreases ms.len() - i,
{
    if i < ms.len() {
        lemma_walk_all_done(ms, i + 1, cur, log);
    }
}

/// A call on a store whose version record already holds a version at or
/// above every migration of the registry sends nothing after reading the
/// version, and returns that version.
pub proof fn law_up_to_date_store_is_left_alone(ms: Seq<Migration>, log: Seq<Exchange>, v: i64)
    requires
        migration_log(ms, log) is Some,
        probe_of(log) == VersionProbe::Present(v),
        forall|j: int| 0 <= j < ms.len() ==> ms[j].version <= v,
    ensures
        log.len() == probe_len(log),
        migration_log(ms, log) == Some(Outcome::Migrated(v)),
{
    let rest = log.skip(probe_len(log));
    lemma_walk_all_done(ms, 0, v, rest);
}

} // verus!
