//! Access to a SQLite store through rusqlite.
//!
//! What a store answers depends on what is on disk, so nothing is promised
//! about the answers themselves. Each request handed to rusqlite is
//! recorded, with whether it failed, in the store's ghost log; the
//! contracts of this module and of the runner are stated over that log.
use vstd::prelude::*;
use rusqlite::Connection;
use crate::model::VersionProbe;
use crate::registry::Migration;

verus! {

#[verifier::external_type_specification]
#[verifier::external_body]
pub struct ExConnection(rusqlite::Connection);

#[verifier::external_type_specification]
#[verifier::external_body]
pub struct ExSqlError(rusqlite::Error);

/// What the store answered to one request.
pub enum Reply {
    Failed,
    Done,
    Value(i64),
}

/// One request handed to the store: its SQL, its integer parameter if it
/// has one, and the answer.
pub struct Exchange {
    pub sql: Seq<char>,
    pub param: Option<i64>,
    pub reply: Reply,
}

/// An open store, with the log of every request the library made through
/// it. Requests made directly on `conn` are not logged.
pub struct Store {
    pub conn: Connection,
    pub log: Ghost<Seq<Exchange>>,
}

pub open spec fn exchange(sql: Seq<char>, param: Option<i64>, reply: Reply) -> Exchange {
    Exchange { sql, param, reply }
}

/// The answer to a query that reads one integer.
pub open spec fn value_reply(r: Result<i64, rusqlite::Error>) -> Reply {
    match r {
        Ok(v) => Reply::Value(v),
        Err(_) => Reply::Failed,
    }
}

/// The answer to a statement.
pub open spec fn done_reply<T>(r: Result<T, rusqlite::Error>) -> Reply {
    match r {
        Ok(_) => Reply::Done,
        Err(_) => Reply::Failed,
    }
}

/// `after` is `before` with requests added at the end.
pub open spec fn grown(before: Seq<Exchange>, after: Seq<Exchange>) -> bool {
    before.len() <= after.len() && after.take(before.len() as int) == before
}

/// The requests added to `before` to give `after`.
pub open spec fn added(before: Seq<Exchange>, after: Seq<Exchange>) -> Seq<Exchange> {
    after.skip(before.len() as int)
}

pub proof fn lemma_grown_parts(before: Seq<Exchange>, after: Seq<Exchange>)
    requires
        grown(before, after),
    ensures
        after == before + added(before, after),
{
    assert(after =~= before + added(before, after));
}

pub proof fn lemma_append_parts(before: Seq<Exchange>, new: Seq<Exchange>)
    ensures
        grown(before, before + new),
        added(before, before + new) == new,
{
    assert((before + new).take(before.len() as int) =~= before);
    assert(added(before, before + new) =~= new);
}

impl Store {
    /// A store over an open connection, with an empty log.
    pub fn new(conn: Connection) -> (r: Store)
        ensures
            r.log@ == Seq::<Exchange>::empty(),
    {
        Store { conn, log: Ghost(Seq::empty()) }
    }
}

/// Relies on rusqlite's `Connection::query_row`: runs one query without
/// parameters and reads the first column of its first row as an integer;
/// every failure comes back as an `Err`.
#[verifier::external_body]
fn query_integer(s: &mut Store, sql: &str) -> (r: Result<i64, rusqlite::Error>)
    ensures
        final(s).log@ == old(s).log@.push(exchange(sql@, None, value_reply(r))),
{
    s.conn.query_row(sql, [], |row| row.get(0))
}

/// Relies on rusqlite's `Connection::execute_batch`: runs every statement
/// of `sql` in turn and stops at the first that fails.
#[verifier::external_body]
fn execute_batch(s: &mut Store, sql: &str) -> (r: Result<(), rusqlite::Error>)
    ensures
        final(s).log@ == old(s).log@.push(exchange(sql@, None, done_reply(r))),
{
    s.conn.execute_batch(sql)
}

/// Relies on rusqlite's `Connection::execute`: runs one statement with a
/// single integer bound to its first parameter.
#[verifier::external_body]
fn execute_with_integer(s: &mut Store, sql: &str, value: i64) -> (r: Result<
    usize,
    rusqlite::Error,
>)
    ensures
        final(s).log@ == old(s).log@.push(exchange(sql@, Some(value), done_reply(r))),
{
    s.conn.execute(sql, [value])
}

/// Counts the tables named `__revision`: the version record is the only
/// row of that table.
pub open spec fn tables_query() -> Seq<char> {
    "SELECT count(*) FROM sqlite_master WHERE type = 'table' AND name = '__revision'"@
}

pub open spec fn version_query() -> Seq<char> {
    "SELECT version FROM __revision"@
}

/// How many requests reading the version takes: a second one only where
/// the version table was found.
pub open spec fn probe_len(log: Seq<Exchange>) -> int {
    if log.len() > 0 && (log[0].reply matches Reply::Value(c) && c != 0) {
        2
    } else {
        1
    }
}

/// The requests are those that read the version.
pub open spec fn reads_version(log: Seq<Exchange>) -> bool {
    &&& log.len() == probe_len(log)
    &&& log[0].sql == tables_query() && log[0].param is None
    &&& log.len() == 2 ==> log[1].sql == version_query() && log[1].param is None
    &&& forall|j: int| 0 <= j < log.len() ==> !(#[trigger] log[j].reply is Done)
}

/// What the answers to reading the version say: no answer to the table
/// count means the store is unusable; a count of 0 means no record; then
/// the record is its value, or unreadable.
pub open spec fn probe_of(log: Seq<Exchange>) -> VersionProbe {
    match log[0].reply {
        Reply::Value(c) => if c == 0 {
            VersionProbe::Absent
        } else {
            match log[1].reply {
                Reply::Value(v) => VersionProbe::Present(v),
                _ => VersionProbe::Unreadable,
            }
        },
        _ => VersionProbe::Unreachable,
    }
}

/// Finds out whether the store has a version record, and what it says.
pub(crate) fn read_version(s: &mut Store) -> (r: VersionProbe)
    ensures
        grown(old(s).log@, final(s).log@),
        reads_version(added(old(s).log@, final(s).log@)),
        r == probe_of(added(old(s).log@, final(s).log@)),
{
    let ghost before = s.log@;
    let tables = query_integer(
        s,
        "SELECT count(*) FROM sqlite_master WHERE type = 'table' AND name = '__revision'",
    );
    let r = match tables {
        Err(_) => VersionProbe::Unreachable,
        Ok(0) => VersionProbe::Absent,
        Ok(_) => match query_integer(s, "SELECT version FROM __revision") {
            Ok(v) => VersionProbe::Present(v),
            Err(_) => VersionProbe::Unreadable,
        },
    };
    proof {
        let new = s.log@.skip(before.len() as int);
        assert(s.log@ =~= before + new);
        lemma_append_parts(before, new);
    }
    r
}

/// The requests that apply a migration: `BEGIN`, its statements in order,
/// the replacement of the version record by its version, `COMMIT`.
pub open spec fn script(m: Migration) -> Seq<(Seq<char>, Option<i64>)> {
    seq![("BEGIN"@, None::<i64>)] + m.statements@.map_values(|t: String| (t@, None::<i64>)) + seq![
        ("DELETE FROM __revision"@, None::<i64>),
        ("INSERT INTO __revision (version) VALUES (?1)"@, Some(m.version)),
        ("COMMIT"@, None::<i64>),
    ]
}

/// The log holds exactly these requests, in this order.
pub open spec fn sent_as(log: Seq<Exchange>, reqs: Seq<(Seq<char>, Option<i64>)>) -> bool {
    &&& log.len() == reqs.len()
    &&& forall|j: int| 0 <= j < log.len() ==> #[trigger] log[j].sql == reqs[j].0 && log[j].param == reqs[j].1
}

pub open spec fn no_failure(log: Seq<Exchange>) -> bool {
    forall|j: int| 0 <= j < log.len() ==> !(#[trigger] log[j].reply is Failed)
}

/// The whole script of `m` was sent and every request succeeded.
pub open spec fn applied(log: Seq<Exchange>, m: Migration) -> bool {
    sent_as(log, script(m)) && no_failure(log)
}

/// The script of `m` was sent up to request `k`, which failed; if the
/// transaction had begun, a `ROLLBACK` followed, and nothing else.
pub open spec fn aborted_at(log: Seq<Exchange>, m: Migration, k: int) -> bool {
    &&& 0 <= k < script(m).len()
    &&& k + 1 <= log.len()
    &&& sent_as(log.take(k + 1), script(m).take(k + 1))
    &&& no_failure(log.take(k))
    &&& log[k].reply is Failed
    &&& if k == 0 {
        log.len() == 1
    } else {
        log.len() == k + 2 && log[k + 1].sql == "ROLLBACK"@ && log[k + 1].param is None
    }
}

pub open spec fn aborted(log: Seq<Exchange>, m: Migration) -> bool {
    exists|k: int| #[trigger] aborted_at(log, m, k)
}

/// Undoes the open transaction after a failure and hands the failure on.
fn abandon(s: &mut Store, e: rusqlite::Error) -> (r: Result<(), String>)
    ensures
        r is Err,
        final(s).log@ == old(s).log@.push(exchange("ROLLBACK"@, None, final(s).log@.last().reply)),
{
    let _ = execute_batch(s, "ROLLBACK");
    Err(e.to_string())
}

proof fn lemma_sent_push(
    log: Seq<Exchange>,
    reqs: Seq<(Seq<char>, Option<i64>)>,
    k: int,
    e: Exchange,
)
    requires
        0 <= k < reqs.len(),
        sent_as(log, reqs.take(k)),
        e.sql == reqs[k].0,
        e.param == reqs[k].1,
    ensures
        sent_as(log.push(e), reqs.take(k + 1)),
{
    assert forall|j: int| 0 <= j < log.len() + 1 implies #[trigger] log.push(e)[j].sql == reqs.take(k + 1)[j].0
        && log.push(e)[j].param == reqs.take(k + 1)[j].1 by {
        if j < log.len() {
            assert(log[j].sql == reqs.take(k)[j].0);
        }
    }
}

/// Applies the statements of one migration and records its version, inside
/// one transaction: either all of it takes effect or none of it does. The
/// log shows the whole script sent without a failure, or the script up to
/// the first failing request, then a `ROLLBACK` once `BEGIN` had succeeded.
pub(crate) fn apply_migration(s: &mut Store, m: &Migration) -> (r: Result<(), String>)
    ensures
        grown(old(s).log@, final(s).log@),
        r is Ok ==> applied(added(old(s).log@, final(s).log@), *m),
        r is Err ==> aborted(added(old(s).log@, final(s).log@), *m),
{
    let ghost before = s.log@;
    let ghost sc = script(*m);
    let ghost len = m.statements@.len();
    assert(sc.len() == len + 4);
    let ghost mut new: Seq<Exchange> = Seq::empty();
    let begun = execute_batch(s, "BEGIN");
    proof {
        lemma_sent_push(new, sc, 0, s.log@.last());
        new = new.push(s.log@.last());
        assert(s.log@ =~= before + new);
    }
    if let Err(e) = begun {
        proof {
            assert(new.take(1) =~= new);
            assert(new.take(0) =~= Seq::<Exchange>::empty());
            assert(aborted_at(new, *m, 0));
            lemma_append_parts(before, new);
        }
        return Err(e.to_string());
    }
    let mut k: usize = 0;
    while k < m.statements.len()
        invariant
            len == m.statements@.len(),
            sc == script(*m),
            sc.len() == len + 4,
            before == old(s).log@,
            k <= len,
            s.log@ == before + new,
            new.len() == k + 1,
            sent_as(new, sc.take(k + 1)),
            no_failure(new),
        decreases len - k,
    {
        let done = execute_batch(s, m.statements[k].as_str());
        proof {
            let e = s.log@.last();
            assert(sc[k + 1] == (m.statements@[k as int]@, None::<i64>));
            lemma_sent_push(new, sc, k + 1, e);
            let prev = new;
            new = new.push(e);
            assert(s.log@ =~= before + new);
            assert(new.take(k + 1) =~= prev);
        }
        if let Err(e) = done {
            let r = abandon(s, e);
            proof {
                let k1 = k + 1;
                let last = s.log@.last();
                assert(new.take(k1 + 1) =~= new);
                let fin = new.push(last);
                assert(fin.take(k1 + 1) =~= new);
                assert(fin.take(k1) =~= new.take(k1));
                assert(s.log@ =~= before + fin);
                assert(aborted_at(fin, *m, k1 as int));
                lemma_append_parts(before, fin);
            }
            return r;
        }
        k = k + 1;
    }
    let mut step: usize = 0;
    while step < 3
        invariant
            len == m.statements@.len(),
            sc == script(*m),
            sc.len() == len + 4,
            before == old(s).log@,
            step <= 3,
            s.log@ == before + new,
            new.len() == len + 1 + step,
            sent_as(new, sc.take(len + 1 + step)),
            no_failure(new),
        decreases 3 - step,
    {
        let ghost at: int = len + 1 + step;
        let done: Result<(), rusqlite::Error> = if step == 0 {
            execute_batch(s, "DELETE FROM __revision")
        } else if step == 1 {
            match execute_with_integer(s, "INSERT INTO __revision (version) VALUES (?1)", m.version) {
                Ok(_) => Ok(()),
                Err(e) => Err(e),
            }
        } else {
            execute_batch(s, "COMMIT")
        };
        proof {
            let e = s.log@.last();
            lemma_sent_push(new, sc, at, e);
            let prev = new;
            new = new.push(e);
            assert(s.log@ =~= before + new);
            assert(new.take(at) =~= prev);
            assert(e.reply is Failed <==> done is Err);
        }
        if let Err(e) = done {
            let r = abandon(s, e);
            proof {
                let last = s.log@.last();
                assert(new.take(at + 1) =~= new);
                let fin = new.push(last);
                assert(fin.take(at + 1) =~= new);
                assert(fin.take(at) =~= new.take(at));
                assert(s.log@ =~= before + fin);
                assert(aborted_at(fin, *m, at as int));
                lemma_append_parts(before, fin);
            }
            return r;
        }
        step = step + 1;
    }
    proof {
        assert(sc.take((len + 4) as int) =~= sc);
        lemma_append_parts(before, new);
    }
    Ok(())
}

} // verus!
