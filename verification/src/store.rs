//! The SQL layer: a handle on the database together with its mathematical
//! model, and one trusted wrapper per SQL statement the library runs.
//! Budget names reach the SQL text only as quoted identifiers, and only
//! after validation (see [`crate::name`]), so each wrapper's statement is
//! exactly the one written here.

use vstd::prelude::*;
use crate::model::StoreModel;
use crate::name::BudgetName;
use crate::data::Budget;

verus! {

#[verifier::external_type_specification]
#[verifier::external_body]
pub struct ExConnection(rusqlite::Connection);

#[verifier::external_type_specification]
#[verifier::external_body]
pub struct ExError(rusqlite::Error);

/// A connection to the database, together with the model of what the
/// database holds.  All access goes through the wrappers below, each of
/// which says how the model moves.
pub struct Store {
    conn: rusqlite::Connection,
    model: Ghost<StoreModel>,
}

impl View for Store {
    type V = StoreModel;

    closed spec fn view(&self) -> StoreModel {
        self.model@
    }
}

impl Store {
    /// Open a connection to a fresh in-memory database, which holds no
    /// tables at all.  Relies on `rusqlite::Connection::open_in_memory`.
    #[verifier::external_body]
    pub fn open_in_memory() -> (r: Result<Store, rusqlite::Error>)
        ensures
            r matches Ok(s) ==> s@ == StoreModel::empty(),
    {
        Ok(Store { conn: rusqlite::Connection::open_in_memory()?, model: Ghost(StoreModel::empty()) })
    }

    /// Open, or create, the database file at `path`.  Relies on
    /// `rusqlite::Connection::open`, and on the file holding only what this
    /// library's operations have written: the store then models some
    /// well-formed catalog of budgets.
    #[verifier::external_body]
    pub fn open(path: &str) -> (r: Result<Store, rusqlite::Error>)
        ensures
            r matches Ok(s) ==> s@.wf(),
    {
        Ok(Store { conn: rusqlite::Connection::open(path)?, model: Ghost(StoreModel::empty()) })
    }
}

/// Relies on `rusqlite::Connection::execute` running the one `CREATE TABLE
/// IF NOT EXISTS` statement written below: it registers an empty table in
/// the library's shape when none exists, does nothing otherwise, and a
/// failed statement leaves the database as it was.
#[verifier::external_body]
pub(crate) fn sql_create_table(s: &mut Store, name: &BudgetName) -> (r: Result<(), rusqlite::Error>)
    requires
        name.wf(),
    ensures
        r is Ok ==> final(s)@ == old(s)@.ensure_table(name@),
        r is Err ==> final(s)@ == old(s)@,
{
    let sql = format!(
        "CREATE TABLE IF NOT EXISTS \"{}\" (id INTEGER PRIMARY KEY AUTOINCREMENT, desc TEXT, date TEXT NOT NULL, amount INTEGER NOT NULL)",
        name.as_str(),
    );
    s.conn.execute(&sql, ()).map(|_| ())
}

/// Relies on `rusqlite::Connection::execute` running the one `DROP TABLE IF
/// EXISTS` statement written below: the table and all its rows are gone
/// afterwards, absent tables are no error, and a failed statement leaves
/// the database as it was.
#[verifier::external_body]
pub(crate) fn sql_drop_table(s: &mut Store, name: &BudgetName) -> (r: Result<(), rusqlite::Error>)
    requires
        name.wf(),
    ensures
        r is Ok ==> final(s)@ == old(s)@.drop_table(name@),
        r is Err ==> final(s)@ == old(s)@,
{
    let sql = format!("DROP TABLE IF EXISTS \"{}\"", name.as_str());
    s.conn.execute(&sql, ()).map(|_| ())
}

/// Relies on `rusqlite::Connection::query_row` counting catalog entries in
/// `sqlite_master`: the count of tables with the given name is positive
/// exactly when the table exists.
#[verifier::external_body]
pub(crate) fn sql_table_exists(s: &Store, name: &BudgetName) -> (r: Result<bool, rusqlite::Error>)
    requires
        name.wf(),
    ensures
        r matches Ok(b) ==> b == s@.has(name@),
{
    let count: i64 = s.conn.query_row(
        "SELECT count(*) FROM sqlite_master WHERE type = 'table' AND name = ?1",
        [name.as_str()],
        |row| row.get(0),
    )?;
    Ok(count > 0)
}

/// Relies on `rusqlite::Connection::execute` running the one `INSERT`
/// statement written below, on a table in this library's shape: the new row
/// gets the lowest never-used id (`AUTOINCREMENT`), and a failed statement
/// leaves the database as it was.
#[verifier::external_body]
pub(crate) fn sql_insert_row(
    s: &mut Store,
    name: &BudgetName,
    desc: &str,
    date: &str,
    amount: i64,
) -> (r: Result<(), rusqlite::Error>)
    requires
        name.wf(),
        old(s)@.wf(),
        old(s)@.has(name@),
    ensures
        r is Ok ==> final(s)@ == old(s)@.insert_tx(name@, desc@, date@, amount as int),
        r is Err ==> final(s)@ == old(s)@,
{
    let sql = format!("INSERT INTO \"{}\" (desc, date, amount) VALUES (?1, ?2, ?3)", name.as_str());
    s.conn.execute(&sql, (desc, date, amount)).map(|_| ())
}

/// Relies on `rusqlite::Connection::execute` running the one `DELETE`
/// statement written below: exactly the rows with the given id are gone
/// (deletes never move the id counter back), and a failed statement leaves
/// the database as it was.
#[verifier::external_body]
pub(crate) fn sql_delete_row(s: &mut Store, name: &BudgetName, id: i64) -> (r: Result<
    (),
    rusqlite::Error,
>)
    requires
        name.wf(),
        old(s)@.has(name@),
    ensures
        r is Ok ==> final(s)@ == old(s)@.remove_tx(name@, id as int),
        r is Err ==> final(s)@ == old(s)@,
{
    let sql = format!("DELETE FROM \"{}\" WHERE id = ?1", name.as_str());
    s.conn.execute(&sql, (id,)).map(|_| ())
}

/// Relies on `rusqlite::Connection::execute` running the one `REPLACE`
/// statement written below, on a table in this library's shape: the row
/// with that id is replaced or created whole, the next assigned id never
/// goes down (`AUTOINCREMENT` tracks the largest id ever written), and a
/// failed statement leaves the database as it was.
#[verifier::external_body]
pub(crate) fn sql_replace_row(
    s: &mut Store,
    name: &BudgetName,
    id: i64,
    desc: &str,
    date: &str,
    amount: i64,
) -> (r: Result<(), rusqlite::Error>)
    requires
        name.wf(),
        old(s)@.wf(),
        old(s)@.has(name@),
        1 <= id,
    ensures
        r is Ok ==> final(s)@ == old(s)@.upsert_tx(name@, id as int, desc@, date@, amount as int),
        r is Err ==> final(s)@ == old(s)@,
{
    let sql = format!(
        "REPLACE INTO \"{}\" (id, desc, date, amount) VALUES (?1, ?2, ?3, ?4)",
        name.as_str(),
    );
    s.conn.execute(&sql, (id, desc, date, amount)).map(|_| ())
}

/// Relies on `rusqlite::Statement::query_map` over the one `SELECT ... ORDER
/// BY id` statement written below: it yields exactly the table's rows in
/// ascending id order, a missing description read as the empty string.
#[verifier::external_body]
pub(crate) fn sql_select_rows(s: &Store, name: &BudgetName) -> (r: Result<
    Vec<Budget>,
    rusqlite::Error,
>)
    requires
        name.wf(),
    ensures
        r matches Ok(v) ==> s@.has(name@) && v@.map_values(|b: Budget| b@) == s@.tables[name@].rows,
{
    let sql = format!("SELECT id, desc, date, amount FROM \"{}\" ORDER BY id", name.as_str());
    let mut stmt = s.conn.prepare(&sql)?;
    let rows = stmt.query_map([], |row| {
        Ok(Budget {
            id: row.get(0)?,
            desc: row.get::<_, Option<String>>(1)?.unwrap_or_default(),
            date: row.get(2)?,
            amount: row.get(3)?,
        })
    })?;
    rows.collect()
}

/// The list names every budget of the store, each exactly once.
pub open spec fn lists_budgets(m: StoreModel, v: Seq<String>) -> bool {
    &&& forall|i: int| 0 <= i < v.len() ==> m.has((#[trigger] v[i])@)
    &&& forall|n: Seq<char>| m.has(n) ==> exists|i: int| 0 <= i < v.len() && (#[trigger] v[i])@ == n
    &&& forall|i: int, j: int| #![trigger v[i], v[j]] 0 <= i < j < v.len() ==> v[i]@ != v[j]@
}

/// Relies on `rusqlite::Statement::query_map` over the catalog query written
/// below: `sqlite_master` lists each table exactly once, and the stores this
/// library writes hold the budget tables and at most the engine's sequence
/// bookkeeping table, which the query leaves out.
#[verifier::external_body]
pub(crate) fn sql_list_tables(s: &Store) -> (r: Result<Vec<String>, rusqlite::Error>)
    ensures
        r matches Ok(v) ==> lists_budgets(s@, v@),
{
    let mut stmt = s.conn.prepare(
        "SELECT name FROM sqlite_master WHERE type = 'table' AND name <> 'sqlite_sequence'",
    )?;
    let rows = stmt.query_map([], |row| row.get(0))?;
    rows.collect()
}

} // verus!
