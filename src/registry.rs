//! Migrations and the registry that orders them.
use vstd::prelude::*;

verus! {

/// One unit of schema or data change.
pub struct Migration {
    /// The ordering key; real migrations are numbered from 1.
    pub version: i64,
    /// Statements that are applied together, or not at all.
    pub statements: Vec<String>,
}

/// The version numbers of a registry, in registry order.
pub open spec fn versions_of(registry: Seq<Migration>) -> Seq<i64> {
    registry.map_values(|m: Migration| m.version)
}

/// Every version is strictly below every later one.
pub open spec fn strictly_ascending(vs: Seq<i64>) -> bool {
    forall|i: int, j: int| 0 <= i < j < vs.len() ==> vs[i] < vs[j]
}

/// Two positions of the registry carry the same version.
pub open spec fn has_duplicate(vs: Seq<i64>) -> bool {
    exists|i: int, j: int| 0 <= i < j < vs.len() && vs[i] == vs[j]
}

/// A usable registry: non-empty, numbered from 1 up, strictly ascending.
pub open spec fn valid_registry(vs: Seq<i64>) -> bool {
    &&& vs.len() > 0
    &&& vs[0] >= 1
    &&& strictly_ascending(vs)
}

/// A registry with a repeated version is never valid.
pub proof fn lemma_duplicate_is_invalid(vs: Seq<i64>)
    requires
        has_duplicate(vs),
    ensures
        !valid_registry(vs),
{
    let (i, j) = choose|i: int, j: int| 0 <= i < j < vs.len() && vs[i] == vs[j];
    assert(!(vs[i] < vs[j]));
}

/// Checks that a registry is non-empty, starts at version 1 or above and
/// is strictly ascending. Nothing else is looked at.
pub fn registry_is_valid(registry: &Vec<Migration>) -> (r: bool)
    ensures
        r == valid_registry(versions_of(registry@)),
{
    let ghost vs = versions_of(registry@);
    let n = registry.len();
    if n == 0 {
        return false;
    }
    if registry[0].version < 1 {
        return false;
    }
    let mut i: usize = 1;
    while i < n
        invariant
            1 <= i <= n,
            n == registry@.len(),
            vs == versions_of(registry@),
            forall|a: int, b: int| 0 <= a < b < i ==> vs[a] < vs[b],
        decreases n - i,
    {
        if registry[i].version <= registry[i - 1].version {
            assert(!(vs[i - 1] < vs[i as int]));
            return false;
        }
        assert forall|a: int, b: int| 0 <= a < b < i + 1 implies vs[a] < vs[b] by {
            if b < i {
            } else if a < i - 1 {
                assert(vs[a] < vs[i - 1]);
            }
        }
        i = i + 1;
    }
    true
}

/// The position of the first migration that is newer than `current`: every
/// migration before it is at or below `current`. For a valid registry every
/// migration from there on is newer as well.
pub fn first_outstanding(registry: &Vec<Migration>, current: i64) -> (r: usize)
    ensures
        r <= registry@.len(),
        forall|j: int| 0 <= j < r ==> registry@[j].version <= current,
        r < registry@.len() ==> registry@[r as int].version > current,
{
    let mut i: usize = 0;
    while i < registry.len() && registry[i].version <= current
        invariant
            i <= registry@.len(),
            forall|j: int| 0 <= j < i ==> registry@[j].version <= current,
        decreases registry@.len() - i,
    {
        i = i + 1;
    }
    i
}

/// The migrations of the receipt store. The first creates the receipts
/// table and the version record, and records version 1.
pub fn receipt_migrations() -> (r: Vec<Migration>)
    ensures
        versions_of(r@) == seq![1i64],
        valid_registry(versions_of(r@)),
        r@[0].statements@.len() == 3,
        r@[0].statements@[0]@ == "CREATE TABLE receipts (id INTEGER PRIMARY KEY, description TEXT, shop TEXT NOT NULL, amount REAL NOT NULL DEFAULT 0.0, currency TEXT NOT NULL, payment_type TEXT NOT NULL, date_paid TEXT NOT NULL)"@,
        r@[0].statements@[1]@ == "CREATE TABLE __revision (version INTEGER)"@,
        r@[0].statements@[2]@ == "INSERT INTO __revision (version) VALUES (1)"@,
{
    let mut statements: Vec<String> = Vec::new();
    statements.push(
        "CREATE TABLE receipts (id INTEGER PRIMARY KEY, description TEXT, shop TEXT NOT NULL, amount REAL NOT NULL DEFAULT 0.0, currency TEXT NOT NULL, payment_type TEXT NOT NULL, date_paid TEXT NOT NULL)".to_owned(),
    );
    statements.push("CREATE TABLE __revision (version INTEGER)".to_owned());
    statements.push("INSERT INTO __revision (version) VALUES (1)".to_owned());
    let mut r: Vec<Migration> = Vec::new();
    r.push(Migration { version: 1, statements });
    assert(versions_of(r@) =~= seq![1i64]);
    r
}

} // verus!
