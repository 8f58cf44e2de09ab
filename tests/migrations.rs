use receipt_keeper::{
    first_outstanding, migrate, receipt_migrations, registry_is_valid, starting_version, Migration, MigrationError,
    Store, VersionProbe,
};
use rusqlite::Connection;

fn migration(version: i64, statements: &[&str]) -> Migration {
    Migration { version, statements: statements.iter().map(|s| s.to_string()).collect() }
}

fn scalar(conn: &Connection, sql: &str) -> i64 {
    conn.query_row(sql, [], |row| row.get::<_, i64>(0)).unwrap()
}

fn table_exists(conn: &Connection, name: &str) -> bool {
    conn.query_row(
        "SELECT count(*) FROM sqlite_master WHERE type = 'table' AND name = ?1",
        [name],
        |row| row.get::<_, i64>(0),
    )
    .unwrap()
        == 1
}

fn stored_version(conn: &Connection) -> i64 {
    scalar(conn, "SELECT version FROM __revision")
}

fn receipts_v1() -> Migration {
    migration(
        1,
        &[
            "CREATE TABLE receipts (id INTEGER PRIMARY KEY, shop TEXT, amount REAL)",
            "CREATE TABLE __revision (version INTEGER)",
            "INSERT INTO __revision (version) VALUES (1)",
        ],
    )
}

fn payment_type_v2() -> Migration {
    migration(2, &["ALTER TABLE receipts ADD COLUMN payment_type TEXT DEFAULT 'cash'"])
}

#[test]
fn empty_store_reaches_version_one() {
    let mut store = Store::new(Connection::open_in_memory().unwrap());
    assert_eq!(migrate(&mut store, &vec![receipts_v1()]), Ok(1));
    assert!(table_exists(&store.conn, "receipts"));
    assert_eq!(scalar(&store.conn, "SELECT count(*) FROM receipts"), 0);
    assert_eq!(stored_version(&store.conn), 1);
    assert_eq!(scalar(&store.conn, "SELECT count(*) FROM __revision"), 1);
}

#[test]
fn second_migration_adds_column_with_default() {
    let mut store = Store::new(Connection::open_in_memory().unwrap());
    assert_eq!(migrate(&mut store, &vec![receipts_v1()]), Ok(1));
    store.conn.execute("INSERT INTO receipts (shop, amount) VALUES ('market', 12.5)", []).unwrap();
    assert_eq!(migrate(&mut store, &vec![receipts_v1(), payment_type_v2()]), Ok(2));
    assert_eq!(stored_version(&store.conn), 2);
    let payment: String = store
        .conn
        .query_row("SELECT payment_type FROM receipts WHERE shop = 'market'", [], |row| row.get(0))
        .unwrap();
    assert_eq!(payment, "cash");
}

#[test]
fn fresh_store_applies_every_migration() {
    let mut store = Store::new(Connection::open_in_memory().unwrap());
    let registry = vec![
        receipts_v1(),
        payment_type_v2(),
        migration(5, &["CREATE TABLE shops (name TEXT)"]),
    ];
    assert_eq!(migrate(&mut store, &registry), Ok(5));
    assert!(table_exists(&store.conn, "__revision"));
    assert!(table_exists(&store.conn, "shops"));
    assert_eq!(stored_version(&store.conn), 5);
    assert_eq!(scalar(&store.conn, "SELECT count(*) FROM __revision"), 1);
}

#[test]
fn second_call_executes_nothing() {
    let mut store = Store::new(Connection::open_in_memory().unwrap());
    let registry = vec![
        migration(
            1,
            &[
                "CREATE TABLE calls (n INTEGER)",
                "CREATE TABLE __revision (version INTEGER)",
                "INSERT INTO calls (n) VALUES (1)",
            ],
        ),
        migration(2, &["INSERT INTO calls (n) VALUES (2)"]),
    ];
    assert_eq!(migrate(&mut store, &registry), Ok(2));
    assert_eq!(scalar(&store.conn, "SELECT count(*) FROM calls"), 2);
    assert_eq!(migrate(&mut store, &registry), Ok(2));
    assert_eq!(scalar(&store.conn, "SELECT count(*) FROM calls"), 2);
    assert_eq!(stored_version(&store.conn), 2);
}

#[test]
fn duplicate_version_is_refused_before_store_access() {
    let mut store = Store::new(Connection::open_in_memory().unwrap());
    let registry = vec![receipts_v1(), migration(1, &["CREATE TABLE other (x INTEGER)"])];
    assert_eq!(migrate(&mut store, &registry), Err(MigrationError::Configuration));
    assert_eq!(scalar(&store.conn, "SELECT count(*) FROM sqlite_master"), 0);
}

#[test]
fn empty_registry_is_refused() {
    let mut store = Store::new(Connection::open_in_memory().unwrap());
    assert_eq!(migrate(&mut store, &Vec::new()), Err(MigrationError::Configuration));
}

#[test]
fn unsorted_registry_is_refused() {
    let mut store = Store::new(Connection::open_in_memory().unwrap());
    let registry = vec![payment_type_v2(), receipts_v1()];
    assert_eq!(migrate(&mut store, &registry), Err(MigrationError::Configuration));
    assert_eq!(scalar(&store.conn, "SELECT count(*) FROM sqlite_master"), 0);
}

#[test]
fn version_zero_is_refused() {
    let mut store = Store::new(Connection::open_in_memory().unwrap());
    let registry = vec![migration(0, &["CREATE TABLE t (x INTEGER)"]), receipts_v1()];
    assert_eq!(migrate(&mut store, &registry), Err(MigrationError::Configuration));
}

#[test]
fn failing_migration_is_contained() {
    let mut store = Store::new(Connection::open_in_memory().unwrap());
    let registry = vec![
        receipts_v1(),
        migration(2, &["CREATE TABLE half (x INTEGER)", "INSERT INTO missing_table VALUES (1)"]),
        migration(3, &["CREATE TABLE third (x INTEGER)"]),
    ];
    match migrate(&mut store, &registry) {
        Err(MigrationError::Execution { version, detail }) => {
            assert_eq!(version, 2);
            assert!(detail.contains("missing_table"));
        }
        other => panic!("unexpected result {:?}", other),
    }
    assert_eq!(stored_version(&store.conn), 1);
    assert!(!table_exists(&store.conn, "half"));
    assert!(!table_exists(&store.conn, "third"));
}

#[test]
fn growing_registry_never_lowers_version() {
    let mut store = Store::new(Connection::open_in_memory().unwrap());
    assert_eq!(migrate(&mut store, &vec![receipts_v1()]), Ok(1));
    assert_eq!(stored_version(&store.conn), 1);
    assert_eq!(migrate(&mut store, &vec![receipts_v1(), payment_type_v2()]), Ok(2));
    assert_eq!(stored_version(&store.conn), 2);
    let third = migration(3, &["CREATE TABLE shops (name TEXT)"]);
    assert_eq!(migrate(&mut store, &vec![receipts_v1(), payment_type_v2(), third]), Ok(3));
    assert_eq!(stored_version(&store.conn), 3);
}

#[test]
fn older_registry_keeps_newer_store_version() {
    let mut store = Store::new(Connection::open_in_memory().unwrap());
    assert_eq!(migrate(&mut store, &vec![receipts_v1(), payment_type_v2()]), Ok(2));
    assert_eq!(migrate(&mut store, &vec![receipts_v1()]), Ok(2));
    assert_eq!(stored_version(&store.conn), 2);
}

#[test]
fn empty_version_record_is_a_read_error() {
    let mut store = Store::new(Connection::open_in_memory().unwrap());
    store.conn.execute_batch("CREATE TABLE __revision (version INTEGER)").unwrap();
    assert_eq!(migrate(&mut store, &vec![receipts_v1()]), Err(MigrationError::VersionRead));
    assert!(!table_exists(&store.conn, "receipts"));
}

#[test]
fn unusable_store_is_a_connection_error() {
    let mut store = Store::new(Connection::open_in_memory().unwrap());
    store.conn.execute_batch(
        "CREATE TABLE t (x INTEGER);
         PRAGMA writable_schema = ON;
         UPDATE sqlite_master SET sql = 'not a statement' WHERE name = 't';
         PRAGMA writable_schema = OFF;
         PRAGMA schema_version = 100;",
    )
    .unwrap();
    assert_eq!(migrate(&mut store, &vec![receipts_v1()]), Err(MigrationError::Connection));
}

#[test]
fn migration_without_version_table_fails() {
    let mut store = Store::new(Connection::open_in_memory().unwrap());
    let registry = vec![migration(1, &["CREATE TABLE receipts (id INTEGER)"])];
    match migrate(&mut store, &registry) {
        Err(MigrationError::Execution { version, .. }) => assert_eq!(version, 1),
        other => panic!("unexpected result {:?}", other),
    }
    assert!(!table_exists(&store.conn, "receipts"));
}

#[test]
fn application_registry_builds_receipts_table() {
    let registry = receipt_migrations();
    assert_eq!(registry.len(), 1);
    assert_eq!(registry[0].version, 1);
    assert!(registry_is_valid(&registry));
    let mut store = Store::new(Connection::open_in_memory().unwrap());
    assert_eq!(migrate(&mut store, &registry), Ok(1));
    assert_eq!(migrate(&mut store, &registry), Ok(1));
    assert_eq!(stored_version(&store.conn), 1);
    store.conn.execute(
        "INSERT INTO receipts (shop, amount, currency, payment_type, date_paid)
         VALUES ('bakery', 3.0, 'EUR', 'card', '2016-05-01')",
        [],
    )
    .unwrap();
    assert_eq!(scalar(&store.conn, "SELECT count(*) FROM receipts"), 1);
}

#[test]
fn registry_validity_cases() {
    assert!(!registry_is_valid(&Vec::new()));
    assert!(registry_is_valid(&vec![receipts_v1()]));
    assert!(registry_is_valid(&vec![receipts_v1(), payment_type_v2()]));
    assert!(!registry_is_valid(&vec![receipts_v1(), receipts_v1()]));
    assert!(!registry_is_valid(&vec![payment_type_v2(), receipts_v1()]));
    assert!(!registry_is_valid(&vec![migration(-3, &[])]));
}

#[test]
fn starting_version_of_each_probe() {
    assert_eq!(starting_version(VersionProbe::Absent), Ok(0));
    assert_eq!(starting_version(VersionProbe::Present(7)), Ok(7));
    assert_eq!(starting_version(VersionProbe::Unreadable), Err(MigrationError::VersionRead));
    assert_eq!(starting_version(VersionProbe::Unreachable), Err(MigrationError::Connection));
}

#[test]
fn error_messages() {
    assert_eq!(MigrationError::Configuration.message(), "invalid migration registry");
    let e = MigrationError::Execution { version: 4, detail: "no such table: x".to_string() };
    assert_eq!(e.message(), "no such table: x");
}

#[test]
fn first_outstanding_positions() {
    let registry = vec![receipts_v1(), payment_type_v2(), migration(5, &[])];
    assert_eq!(first_outstanding(&registry, 0), 0);
    assert_eq!(first_outstanding(&registry, 1), 1);
    assert_eq!(first_outstanding(&registry, 3), 2);
    assert_eq!(first_outstanding(&registry, 5), 3);
    assert_eq!(first_outstanding(&Vec::new(), 0), 0);
}
