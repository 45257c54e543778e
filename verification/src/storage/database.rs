//! The inventory store: a single persistent connection guarded by an
//! exclusive lock, a ladder of version-gated schema migrations applied
//! atomically, and merge-on-insert record operations.
//!
//! The store's state is modelled by two abstractions: `pieces_of`, the map
//! from record id to stored row, and `ledger_of`, the set of applied
//! migration versions. While an explicit transaction is open, `in_tx` holds
//! and `saved_pieces`/`saved_ledger` name the state the transaction began
//! with, which a rollback restores.

use vstd::prelude::*;
use vstd::string::*;

use crate::error::StudFinderError;
use crate::piece::{Confidence, Piece, PieceView, CONFIDENCE_UNIT};
use crate::text::{
    conf_field_val, conf_text_of, conf_to_text, is_canonical_conf_text, parse_conf_field,
};

use rusqlite::OptionalExtension;

verus! {

/// One persistent connection guarded by an exclusive lock. The lock
/// serializes every statement; exclusive access to the whole store for the
/// duration of an operation comes from the store's methods taking it by
/// mutable reference.
#[derive(Debug)]
#[verifier::external_body]
pub struct Store {
    conn: std::sync::Mutex<rusqlite::Connection>,
}

/// The stored form of a catalog record: the confidence is held as the
/// decimal text the engine would render for the stored value.
pub ghost struct RowView {
    pub id: Seq<char>,
    pub part_number: Seq<char>,
    pub color: Seq<char>,
    pub category: Seq<char>,
    pub quantity: int,
    pub conf_text: Seq<char>,
}

/// Contents of the `pieces` table, keyed by record id; an absent table
/// reads as the empty map.
pub uninterp spec fn pieces_of(st: Store) -> Map<Seq<char>, RowView>;

/// Versions recorded in the `schema_version` ledger; an absent table reads
/// as the empty set.
pub uninterp spec fn ledger_of(st: Store) -> Set<int>;

/// Whether an explicit transaction is open on the connection.
pub uninterp spec fn in_tx(st: Store) -> bool;

/// The `pieces` contents at the time the open transaction began.
pub uninterp spec fn saved_pieces(st: Store) -> Map<Seq<char>, RowView>;

/// The ledger contents at the time the open transaction began.
pub uninterp spec fn saved_ledger(st: Store) -> Set<int>;

/// The empty pieces map.
pub open spec fn empty_rows() -> Map<Seq<char>, RowView> {
    Map::empty()
}

/// The empty version ledger.
pub open spec fn empty_ledger() -> Set<int> {
    Set::empty()
}

/// Both tables read the same in the two states.
pub open spec fn state_eq(a: Store, b: Store) -> bool {
    pieces_of(b) == pieces_of(a) && ledger_of(b) == ledger_of(a)
}

/// The transaction bookkeeping is the same in the two states.
pub open spec fn tx_frame(a: Store, b: Store) -> bool {
    &&& in_tx(b) == in_tx(a)
    &&& saved_pieces(b) == saved_pieces(a)
    &&& saved_ledger(b) == saved_ledger(a)
}

/// What a failed statement leaves behind. Outside a transaction a single
/// statement is atomic, so nothing changed. Inside one, either the
/// transaction is still open and nothing changed, or the engine responded
/// to the error by rolling the transaction back to the state it began with.
pub open spec fn step_failed(a: Store, b: Store) -> bool {
    if in_tx(a) {
        (state_eq(a, b) && tx_frame(a, b)) || (!in_tx(b) && pieces_of(b) == saved_pieces(a)
            && ledger_of(b) == saved_ledger(a))
    } else {
        state_eq(a, b) && !in_tx(b)
    }
}

/// `v` is the ledger's maximum, or zero when the ledger is empty.
pub open spec fn is_version_of(v: int, l: Set<int>) -> bool {
    &&& (l.is_empty() ==> v == 0)
    &&& (!l.is_empty() ==> l.contains(v) && (forall|w: int| l.contains(w) ==> w <= v))
}

/// Why a single guarded statement failed: the guard was poisoned, or the
/// engine refused the statement.
enum StepFailure {
    LockPoisoned,
    Engine(String),
}

/// Relies on rusqlite::Connection::open: opens (creating if absent) the
/// database file at the path; a fresh connection is in autocommit mode.
#[verifier::external_body]
fn open_store(path: &str) -> (r: Result<Store, String>)
    ensures
        r matches Ok(st) ==> !in_tx(st),
{
    match rusqlite::Connection::open(path) {
        Ok(conn) => Ok(Store { conn: std::sync::Mutex::new(conn) }),
        Err(e) => Err(e.to_string()),
    }
}

/// Relies on rusqlite::Connection::execute_batch: `BEGIN` opens a
/// transaction and changes no table.
#[verifier::external_body]
fn sql_begin(st: &mut Store) -> (r: Result<(), StepFailure>)
    requires
        !in_tx(*old(st)),
    ensures
        r is Ok ==> in_tx(*final(st)) && state_eq(*old(st), *final(st)) && saved_pieces(
            *final(st),
        ) == pieces_of(*old(st)) && saved_ledger(*final(st)) == ledger_of(*old(st)),
        r is Err ==> !in_tx(*final(st)) && state_eq(*old(st), *final(st)),
{
    let conn = match st.conn.lock() {
        Ok(c) => c,
        Err(_) => return Err(StepFailure::LockPoisoned),
    };
    match conn.execute_batch("BEGIN") {
        Ok(()) => Ok(()),
        Err(e) => Err(StepFailure::Engine(e.to_string())),
    }
}

/// Relies on rusqlite::Connection::execute_batch: `COMMIT` makes the open
/// transaction's changes durable and changes no table contents.
#[verifier::external_body]
fn sql_commit(st: &mut Store) -> (r: Result<(), StepFailure>)
    requires
        in_tx(*old(st)),
    ensures
        r is Ok ==> !in_tx(*final(st)) && state_eq(*old(st), *final(st)),
        r is Err ==> step_failed(*old(st), *final(st)),
{
    let conn = match st.conn.lock() {
        Ok(c) => c,
        Err(_) => return Err(StepFailure::LockPoisoned),
    };
    match conn.execute_batch("COMMIT") {
        Ok(()) => Ok(()),
        Err(e) => Err(StepFailure::Engine(e.to_string())),
    }
}

/// Relies on rusqlite::Connection::execute_batch: `ROLLBACK` restores the
/// state the open transaction began with. When a prior statement error made
/// the engine roll back on its own, the transaction is already closed and
/// this statement fails with no further effect, so the state is unchanged
/// either way. A poisoned guard is recovered here, since the rollback takes
/// no decision that a prior panic could have corrupted.
#[verifier::external_body]
fn sql_rollback(st: &mut Store)
    ensures
        !in_tx(*final(st)),
        in_tx(*old(st)) ==> pieces_of(*final(st)) == saved_pieces(*old(st)) && ledger_of(
            *final(st),
        ) == saved_ledger(*old(st)),
        !in_tx(*old(st)) ==> state_eq(*old(st), *final(st)),
{
    let conn = match st.conn.lock() {
        Ok(c) => c,
        Err(poisoned) => poisoned.into_inner(),
    };
    let _ = conn.execute_batch("ROLLBACK");
}

/// Relies on rusqlite::Connection::execute: `CREATE TABLE IF NOT EXISTS
/// schema_version (...)` changes no contents, since an absent ledger reads
/// as the empty set.
#[verifier::external_body]
fn sql_create_version_table(st: &mut Store) -> (r: Result<(), StepFailure>)
    ensures
        r is Ok ==> state_eq(*old(st), *final(st)) && tx_frame(*old(st), *final(st)),
        r is Err ==> step_failed(*old(st), *final(st)),
{
    let conn = match st.conn.lock() {
        Ok(c) => c,
        Err(_) => return Err(StepFailure::LockPoisoned),
    };
    let sql = "CREATE TABLE IF NOT EXISTS schema_version (
            version INTEGER PRIMARY KEY,
            applied_at TIMESTAMP DEFAULT CURRENT_TIMESTAMP
        )";
    match conn.execute(sql, []) {
        Ok(_) => Ok(()),
        Err(e) => Err(StepFailure::Engine(e.to_string())),
    }
}

/// Relies on rusqlite::Connection::query_row: `SELECT COALESCE(MAX(version),
/// 0) FROM schema_version` returns the ledger's maximum, or zero when the
/// ledger is empty.
#[verifier::external_body]
fn sql_max_version(st: &Store) -> (r: Result<i32, StepFailure>)
    ensures
        r matches Ok(v) ==> is_version_of(v as int, ledger_of(*st)),
{
    let conn = match st.conn.lock() {
        Ok(c) => c,
        Err(_) => return Err(StepFailure::LockPoisoned),
    };
    let q: Result<i32, rusqlite::Error> = conn.query_row(
        "SELECT COALESCE(MAX(version), 0) FROM schema_version",
        [],
        |row| row.get(0),
    );
    match q {
        Ok(v) => Ok(v),
        Err(e) => Err(StepFailure::Engine(e.to_string())),
    }
}

/// Relies on rusqlite::Connection::execute: `INSERT INTO schema_version
/// (version) VALUES (?1)` appends one ledger entry; the primary key refuses
/// a version that is already present.
#[verifier::external_body]
fn sql_insert_version(st: &mut Store, v: i32) -> (r: Result<(), StepFailure>)
    ensures
        r is Ok ==> !ledger_of(*old(st)).contains(v as int) && ledger_of(*final(st)) == ledger_of(
            *old(st),
        ).insert(v as int) && pieces_of(*final(st)) == pieces_of(*old(st)) && tx_frame(
            *old(st),
            *final(st),
        ),
        r is Err ==> step_failed(*old(st), *final(st)),
{
    let conn = match st.conn.lock() {
        Ok(c) => c,
        Err(_) => return Err(StepFailure::LockPoisoned),
    };
    match conn.execute("INSERT INTO schema_version (version) VALUES (?1)", [v]) {
        Ok(_) => Ok(()),
        Err(e) => Err(StepFailure::Engine(e.to_string())),
    }
}

/// Relies on rusqlite::Connection::execute: `CREATE TABLE IF NOT EXISTS
/// pieces (...)` changes no contents, since an absent table reads as the
/// empty map.
#[verifier::external_body]
fn sql_create_pieces_table(st: &mut Store) -> (r: Result<(), StepFailure>)
    ensures
        r is Ok ==> state_eq(*old(st), *final(st)) && tx_frame(*old(st), *final(st)),
        r is Err ==> step_failed(*old(st), *final(st)),
{
    let conn = match st.conn.lock() {
        Ok(c) => c,
        Err(_) => return Err(StepFailure::LockPoisoned),
    };
    let sql = "CREATE TABLE IF NOT EXISTS pieces (
            id TEXT PRIMARY KEY,
            part_number TEXT NOT NULL,
            color TEXT NOT NULL,
            category TEXT NOT NULL,
            quantity INTEGER NOT NULL DEFAULT 1
        )";
    match conn.execute(sql, []) {
        Ok(_) => Ok(()),
        Err(e) => Err(StepFailure::Engine(e.to_string())),
    }
}

/// Relies on rusqlite::Connection::execute: `ALTER TABLE pieces ADD COLUMN
/// confidence REAL NOT NULL DEFAULT 1.0` backfills every existing row with
/// 1.0, whose engine text rendering is `1.0`, and changes nothing else.
#[verifier::external_body]
fn sql_add_confidence_column(st: &mut Store) -> (r: Result<(), StepFailure>)
    ensures
        r is Ok ==> pieces_of(*final(st)) == conf_defaulted(pieces_of(*old(st))) && ledger_of(
            *final(st),
        ) == ledger_of(*old(st)) && tx_frame(*old(st), *final(st)),
        r is Err ==> step_failed(*old(st), *final(st)),
{
    let conn = match st.conn.lock() {
        Ok(c) => c,
        Err(_) => return Err(StepFailure::LockPoisoned),
    };
    match conn.execute("ALTER TABLE pieces ADD COLUMN confidence REAL NOT NULL DEFAULT 1.0", []) {
        Ok(_) => Ok(()),
        Err(e) => Err(StepFailure::Engine(e.to_string())),
    }
}

/// Every row with its confidence text set to the engine rendering of 1.0.
pub open spec fn conf_defaulted(m: Map<Seq<char>, RowView>) -> Map<Seq<char>, RowView> {
    Map::new(
        |k: Seq<char>| m.dom().contains(k),
        |k: Seq<char>|
            RowView {
                conf_text: conf_text_of(CONFIDENCE_UNIT as int),
                ..m[k]
            },
    )
}

/// Relies on rusqlite::Connection::execute: `CREATE INDEX IF NOT EXISTS
/// idx_part_number ON pieces(part_number)` changes no contents.
#[verifier::external_body]
fn sql_create_part_number_index(st: &mut Store) -> (r: Result<(), StepFailure>)
    ensures
        r is Ok ==> state_eq(*old(st), *final(st)) && tx_frame(*old(st), *final(st)),
        r is Err ==> step_failed(*old(st), *final(st)),
{
    let conn = match st.conn.lock() {
        Ok(c) => c,
        Err(_) => return Err(StepFailure::LockPoisoned),
    };
    match conn.execute("CREATE INDEX IF NOT EXISTS idx_part_number ON pieces(part_number)", []) {
        Ok(_) => Ok(()),
        Err(e) => Err(StepFailure::Engine(e.to_string())),
    }
}

/// Relies on rusqlite::Connection::execute: `CREATE INDEX IF NOT EXISTS
/// idx_color ON pieces(color)` changes no contents.
#[verifier::external_body]
fn sql_create_color_index(st: &mut Store) -> (r: Result<(), StepFailure>)
    ensures
        r is Ok ==> state_eq(*old(st), *final(st)) && tx_frame(*old(st), *final(st)),
        r is Err ==> step_failed(*old(st), *final(st)),
{
    let conn = match st.conn.lock() {
        Ok(c) => c,
        Err(_) => return Err(StepFailure::LockPoisoned),
    };
    match conn.execute("CREATE INDEX IF NOT EXISTS idx_color ON pieces(color)", []) {
        Ok(_) => Ok(()),
        Err(e) => Err(StepFailure::Engine(e.to_string())),
    }
}

/// Relies on rusqlite::Connection::execute: `DROP TABLE IF EXISTS pieces`
/// leaves the table absent, which reads as the empty map.
#[verifier::external_body]
fn sql_drop_pieces_table(st: &mut Store) -> (r: Result<(), StepFailure>)
    ensures
        r is Ok ==> pieces_of(*final(st)) == empty_rows() && ledger_of(*final(st))
            == ledger_of(*old(st)) && tx_frame(*old(st), *final(st)),
        r is Err ==> step_failed(*old(st), *final(st)),
{
    let conn = match st.conn.lock() {
        Ok(c) => c,
        Err(_) => return Err(StepFailure::LockPoisoned),
    };
    match conn.execute("DROP TABLE IF EXISTS pieces", []) {
        Ok(_) => Ok(()),
        Err(e) => Err(StepFailure::Engine(e.to_string())),
    }
}

/// Relies on rusqlite::Connection::execute: `DROP TABLE IF EXISTS
/// schema_version` leaves the ledger absent, which reads as the empty set.
#[verifier::external_body]
fn sql_drop_version_table(st: &mut Store) -> (r: Result<(), StepFailure>)
    ensures
        r is Ok ==> ledger_of(*final(st)) == empty_ledger() && pieces_of(*final(st))
            == pieces_of(*old(st)) && tx_frame(*old(st), *final(st)),
        r is Err ==> step_failed(*old(st), *final(st)),
{
    let conn = match st.conn.lock() {
        Ok(c) => c,
        Err(_) => return Err(StepFailure::LockPoisoned),
    };
    match conn.execute("DROP TABLE IF EXISTS schema_version", []) {
        Ok(_) => Ok(()),
        Err(e) => Err(StepFailure::Engine(e.to_string())),
    }
}

/// One row read back from the `pieces` table, with the confidence still in
/// its engine text rendering.
pub struct PieceRow {
    pub id: String,
    pub part_number: String,
    pub color: String,
    pub category: String,
    pub quantity: i32,
    pub confidence_text: String,
}

impl View for PieceRow {
    type V = RowView;

    open spec fn view(&self) -> RowView {
        RowView {
            id: self.id@,
            part_number: self.part_number@,
            color: self.color@,
            category: self.category@,
            quantity: self.quantity as int,
            conf_text: self.confidence_text@,
        }
    }
}

/// Relies on rusqlite::Connection::query_row over `SELECT id, part_number,
/// color, category, quantity, CAST(confidence AS TEXT) FROM pieces WHERE id
/// = ?1`: returns the row stored under the id, or nothing when the id is
/// absent.
#[verifier::external_body]
fn sql_select_piece(st: &Store, id: &str) -> (r: Result<Option<PieceRow>, StepFailure>)
    ensures
        r matches Ok(Some(row)) ==> pieces_of(*st).contains_key(id@) && row@ == pieces_of(
            *st,
        )[id@] && row@.id == id@,
        r matches Ok(None) ==> !pieces_of(*st).contains_key(id@),
{
    let conn = match st.conn.lock() {
        Ok(c) => c,
        Err(_) => return Err(StepFailure::LockPoisoned),
    };
    let sql = "SELECT id, part_number, color, category, quantity, CAST(confidence AS TEXT) FROM pieces WHERE id = ?1";
    let q = conn.query_row(sql, [id], |r| Ok(PieceRow {
        id: r.get(0)?, part_number: r.get(1)?, color: r.get(2)?,
        category: r.get(3)?, quantity: r.get(4)?, confidence_text: r.get(5)?,
    })).optional();
    q.map_err(|e| StepFailure::Engine(e.to_string()))
}

/// The rows are exactly the map's entries, in some order.
pub open spec fn rows_listing(rows: Seq<RowView>, m: Map<Seq<char>, RowView>) -> bool {
    &&& m.dom().finite()
    &&& rows.len() == m.dom().len()
    &&& forall|i: int|
        0 <= i < rows.len() ==> m.contains_key(#[trigger] rows[i].id) && rows[i] == m[rows[i].id]
    &&& forall|i: int, j: int| 0 <= i < j < rows.len() ==> rows[i].id != rows[j].id
    &&& forall|k: Seq<char>|
        m.contains_key(k) ==> exists|i: int| 0 <= i < rows.len() && #[trigger] rows[i].id == k
}

/// Relies on rusqlite::Statement::query_map over `SELECT id, part_number,
/// color, category, quantity, CAST(confidence AS TEXT) FROM pieces`: returns
/// every stored row exactly once, in an order the engine chooses.
#[verifier::external_body]
fn sql_select_all(st: &Store) -> (r: Result<Vec<PieceRow>, StepFailure>)
    ensures
        r matches Ok(rows) ==> rows_listing(
            Seq::new(rows@.len(), |i: int| rows@[i]@),
            pieces_of(*st),
        ),
{
    let conn = match st.conn.lock() {
        Ok(c) => c,
        Err(_) => return Err(StepFailure::LockPoisoned),
    };
    let sql = "SELECT id, part_number, color, category, quantity, CAST(confidence AS TEXT) FROM pieces";
    let q = conn.prepare(sql).and_then(|mut stmt| stmt.query_map([], |r| Ok(PieceRow {
        id: r.get(0)?, part_number: r.get(1)?, color: r.get(2)?,
        category: r.get(3)?, quantity: r.get(4)?, confidence_text: r.get(5)?,
    }))?.collect::<Result<Vec<PieceRow>, rusqlite::Error>>());
    q.map_err(|e| StepFailure::Engine(e.to_string()))
}

/// Relies on rusqlite::Connection::execute over `INSERT INTO pieces (id,
/// part_number, color, category, quantity, confidence) VALUES (?1, ?2, ?3,
/// ?4, ?5, ?6)`: adds the row under its id; the primary key refuses an id
/// that is already present. The confidence is bound as decimal text, which
/// the column's numeric affinity converts; reading it back as text yields
/// the bound text again because the text is a canonical rendering.
#[verifier::external_body]
fn sql_insert_piece(st: &mut Store, p: &Piece, conf_text: &str) -> (r: Result<(), StepFailure>)
    requires
        is_canonical_conf_text(conf_text@),
    ensures
        r is Ok ==> !pieces_of(*old(st)).contains_key(p.id@) && pieces_of(*final(st)) == pieces_of(
            *old(st),
        ).insert(
            p.id@,
            RowView {
                id: p.id@,
                part_number: p.part_number@,
                color: p.color@,
                category: p.category@,
                quantity: p.quantity as int,
                conf_text: conf_text@,
            },
        ) && ledger_of(*final(st)) == ledger_of(*old(st)) && tx_frame(*old(st), *final(st)),
        r is Err ==> step_failed(*old(st), *final(st)),
{
    let conn = match st.conn.lock() {
        Ok(c) => c,
        Err(_) => return Err(StepFailure::LockPoisoned),
    };
    let q = conn.execute(
        "INSERT INTO pieces (id, part_number, color, category, quantity, confidence)
         VALUES (?1, ?2, ?3, ?4, ?5, ?6)",
        (&p.id, &p.part_number, &p.color, &p.category, p.quantity, conf_text),
    );
    match q {
        Ok(_) => Ok(()),
        Err(e) => Err(StepFailure::Engine(e.to_string())),
    }
}

/// Relies on rusqlite::Connection::execute over `UPDATE pieces SET quantity
/// = ?1 WHERE id = ?2`: sets the row's quantity when the id is present and
/// reports how many rows changed.
#[verifier::external_body]
fn sql_update_quantity(st: &mut Store, id: &str, q: i32) -> (r: Result<usize, StepFailure>)
    ensures
        r matches Ok(n) ==> ledger_of(*final(st)) == ledger_of(*old(st)) && tx_frame(
            *old(st),
            *final(st),
        ) && (if pieces_of(*old(st)).contains_key(id@) {
            n == 1 && pieces_of(*final(st)) == pieces_of(*old(st)).insert(
                id@,
                RowView { quantity: q as int, ..pieces_of(*old(st))[id@] },
            )
        } else {
            n == 0 && pieces_of(*final(st)) == pieces_of(*old(st))
        }),
        r is Err ==> step_failed(*old(st), *final(st)),
{
    let conn = match st.conn.lock() {
        Ok(c) => c,
        Err(_) => return Err(StepFailure::LockPoisoned),
    };
    match conn.execute("UPDATE pieces SET quantity = ?1 WHERE id = ?2", (q, id)) {
        Ok(n) => Ok(n),
        Err(e) => Err(StepFailure::Engine(e.to_string())),
    }
}

/// Relies on rusqlite::Connection::execute over `DELETE FROM pieces WHERE
/// id = ?1`: removes the row when the id is present and reports how many
/// rows changed.
#[verifier::external_body]
fn sql_delete_piece(st: &mut Store, id: &str) -> (r: Result<usize, StepFailure>)
    ensures
        r matches Ok(n) ==> ledger_of(*final(st)) == ledger_of(*old(st)) && tx_frame(
            *old(st),
            *final(st),
        ) && (if pieces_of(*old(st)).contains_key(id@) {
            n == 1 && pieces_of(*final(st)) == pieces_of(*old(st)).remove(id@)
        } else {
            n == 0 && pieces_of(*final(st)) == pieces_of(*old(st))
        }),
        r is Err ==> step_failed(*old(st), *final(st)),
{
    let conn = match st.conn.lock() {
        Ok(c) => c,
        Err(_) => return Err(StepFailure::LockPoisoned),
    };
    match conn.execute("DELETE FROM pieces WHERE id = ?1", [id]) {
        Ok(n) => Ok(n),
        Err(e) => Err(StepFailure::Engine(e.to_string())),
    }
}


/// The record id as a borrowed string.
fn piece_id_str(p: &Piece) -> (r: &str)
    ensures
        r@ == p.id@,
{
    p.id.as_str()
}

/// Decodes one stored row into a record, reading the confidence from its
/// text rendering; a text that does not denote a valid confidence is
/// refused.
fn row_to_piece(row: &PieceRow) -> (r: Option<Piece>)
    ensures
        r matches Some(p) ==> piece_matches_row(p@, row@) && p.confidence.valid(),
        r is None ==> conf_field_val(row@.conf_text) is None,
{
    let milli = match parse_conf_field(row.confidence_text.as_str()) {
        Some(m) => m,
        None => {
            return None;
        },
    };
    Some(
        Piece {
            id: row.id.clone(),
            part_number: row.part_number.clone(),
            color: row.color.clone(),
            category: row.category.clone(),
            quantity: row.quantity,
            confidence: Confidence { milli },
        },
    )
}

/// Maps a step failure to the catalog's error type: a poisoned guard is a
/// lock failure naming the whole operation, an engine refusal is a database
/// error naming the statement.
fn step_err(lock_op: &str, stmt_op: &str, f: StepFailure) -> (e: StudFinderError)
    ensures
        !(e is PieceNotFound),
{
    match f {
        StepFailure::LockPoisoned => StudFinderError::DatabaseLockFailed {
            operation: String::from_str(lock_op),
        },
        StepFailure::Engine(m) => StudFinderError::Database {
            operation: String::from_str(stmt_op),
            message: m,
        },
    }
}

/// Maps a step failure within a migration to the catalog's error type,
/// carrying the migration's target version and the failing operation.
fn migration_err(lock_op: &str, version: i32, stmt_op: &str, f: StepFailure) -> (e:
    StudFinderError)
    ensures
        !(e is PieceNotFound),
{
    match f {
        StepFailure::LockPoisoned => StudFinderError::DatabaseLockFailed {
            operation: String::from_str(lock_op),
        },
        StepFailure::Engine(m) => StudFinderError::Migration {
            version,
            operation: String::from_str(stmt_op),
            message: m,
        },
    }
}

/// Wraps the error that made a reset's reinitialization fail, keeping the
/// failing operation's name.
fn reset_failure(e: StudFinderError) -> (w: StudFinderError)
    ensures
        w is DatabaseResetFailed,
{
    StudFinderError::DatabaseResetFailed {
        message: match e {
            StudFinderError::Database { operation, .. } => operation,
            StudFinderError::Migration { operation, .. } => operation,
            StudFinderError::DatabaseLockFailed { operation } => operation,
            _ => String::from_str("initialize schema"),
        },
    }
}

/// What one `initialize` run does, as a relation between the state read at
/// version `v` and the state left behind: every migration step above `v`
/// has run, in order, and has appended its ledger entry.
pub open spec fn migrated(
    v: int,
    p0: Map<Seq<char>, RowView>,
    l0: Set<int>,
    p1: Map<Seq<char>, RowView>,
    l1: Set<int>,
) -> bool {
    if v < 1 {
        p1 == conf_defaulted(p0) && l1 == l0.insert(1).insert(2)
    } else if v < 2 {
        p1 == conf_defaulted(p0) && l1 == l0.insert(2)
    } else {
        p1 == p0 && l1 == l0
    }
}


/// The stored row that a fresh insert of the record produces: the
/// confidence is rendered as its canonical text.
pub open spec fn row_of_piece(p: PieceView) -> RowView {
    RowView {
        id: p.id,
        part_number: p.part_number,
        color: p.color,
        category: p.category,
        quantity: p.quantity,
        conf_text: conf_text_of(p.confidence),
    }
}

/// Merge-on-insert: an absent id is inserted whole; a present id keeps its
/// stored fields and accumulates the submitted quantity.
pub open spec fn upserted(m: Map<Seq<char>, RowView>, p: PieceView) -> Map<Seq<char>, RowView> {
    if m.contains_key(p.id) {
        m.insert(p.id, RowView { quantity: m[p.id].quantity + p.quantity, ..m[p.id] })
    } else {
        m.insert(p.id, row_of_piece(p))
    }
}

/// The record reads back the stored row: fields are equal and the stored
/// confidence text denotes the record's confidence.
pub open spec fn piece_matches_row(p: PieceView, row: RowView) -> bool {
    &&& p.id == row.id
    &&& p.part_number == row.part_number
    &&& p.color == row.color
    &&& p.category == row.category
    &&& p.quantity == row.quantity
    &&& conf_field_val(row.conf_text) == Some(p.confidence)
}

/// The listed records are exactly the map's entries, in some order.
pub open spec fn pieces_listing(ps: Seq<Piece>, m: Map<Seq<char>, RowView>) -> bool {
    &&& m.dom().finite()
    &&& ps.len() == m.dom().len()
    &&& forall|i: int|
        0 <= i < ps.len() ==> m.contains_key(#[trigger] ps[i]@.id) && piece_matches_row(
            ps[i]@,
            m[ps[i]@.id],
        )
    &&& forall|i: int, j: int| 0 <= i < j < ps.len() ==> ps[i]@.id != ps[j]@.id
    &&& forall|k: Seq<char>|
        m.contains_key(k) ==> exists|i: int| 0 <= i < ps.len() && #[trigger] ps[i]@.id == k
}

/// The inventory store.
#[derive(Debug)]
pub struct Database {
    store: Store,
}

impl Database {
    /// A database is well formed when no transaction has been left open:
    /// every operation opens and closes its own.
    pub closed spec fn wf(&self) -> bool {
        !in_tx(self.store)
    }

    /// The stored records, keyed by id.
    pub closed spec fn pieces(&self) -> Map<Seq<char>, RowView> {
        pieces_of(self.store)
    }

    /// The applied migration versions.
    pub closed spec fn ledger(&self) -> Set<int> {
        ledger_of(self.store)
    }

    /// Opens (creating if absent) the store at the given path. The schema
    /// is not touched until `init` runs.
    pub fn new(path: &str) -> (r: Result<Database, StudFinderError>)
        ensures
            r matches Ok(db) ==> db.wf(),
    {
        match open_store(path) {
            Ok(store) => Ok(Database { store }),
            Err(m) => Err(
                StudFinderError::Database {
                    operation: String::from_str("open connection"),
                    message: m,
                },
            ),
        }
    }

    /// Applies every pending migration, atomically: reads the persisted
    /// version once, runs each step above it in increasing order inside a
    /// single transaction, and appends a ledger entry per step. On failure
    /// the whole batch is rolled back and the store reads as it did before
    /// the call. Running again when already at the latest version changes
    /// nothing.
    pub fn init(&mut self) -> (r: Result<(), StudFinderError>)
        requires
            old(self).wf(),
        ensures
            final(self).wf(),
            r is Ok ==> exists|v: int|
                is_version_of(v, old(self).ledger()) && migrated(
                    v,
                    old(self).pieces(),
                    old(self).ledger(),
                    final(self).pieces(),
                    final(self).ledger(),
                ),
            r is Err ==> final(self).pieces() == old(self).pieces() && final(self).ledger() == old(self).ledger(),
    {
        let ghost p0 = self.pieces();
        let ghost l0 = self.ledger();
        match sql_begin(&mut self.store) {
            Ok(()) => (),
            Err(f) => {
                return Err(step_err("initialize schema", "begin transaction", f));
            },
        }
        match sql_create_version_table(&mut self.store) {
            Ok(()) => (),
            Err(f) => {
                sql_rollback(&mut self.store);
                return Err(step_err("initialize schema", "create schema_version table", f));
            },
        }
        let version = match sql_max_version(&self.store) {
            Ok(v) => v,
            Err(f) => {
                sql_rollback(&mut self.store);
                return Err(step_err("initialize schema", "query schema version", f));
            },
        };
        if version < 1 {
            match sql_create_pieces_table(&mut self.store) {
                Ok(()) => (),
                Err(f) => {
                    sql_rollback(&mut self.store);
                    return Err(migration_err("initialize schema", 1, "create pieces table", f));
                },
            }
            match sql_insert_version(&mut self.store, 1) {
                Ok(()) => (),
                Err(f) => {
                    sql_rollback(&mut self.store);
                    return Err(migration_err("initialize schema", 1, "update schema version", f));
                },
            }
        }
        if version < 2 {
            match sql_add_confidence_column(&mut self.store) {
                Ok(()) => (),
                Err(f) => {
                    sql_rollback(&mut self.store);
                    return Err(migration_err("initialize schema", 2, "add confidence column", f));
                },
            }
            match sql_create_part_number_index(&mut self.store) {
                Ok(()) => (),
                Err(f) => {
                    sql_rollback(&mut self.store);
                    return Err(
                        migration_err("initialize schema", 2, "create part_number index", f),
                    );
                },
            }
            match sql_create_color_index(&mut self.store) {
                Ok(()) => (),
                Err(f) => {
                    sql_rollback(&mut self.store);
                    return Err(migration_err("initialize schema", 2, "create color index", f));
                },
            }
            match sql_insert_version(&mut self.store, 2) {
                Ok(()) => (),
                Err(f) => {
                    sql_rollback(&mut self.store);
                    return Err(migration_err("initialize schema", 2, "update schema version", f));
                },
            }
        }
        match sql_commit(&mut self.store) {
            Ok(()) => (),
            Err(f) => {
                sql_rollback(&mut self.store);
                return Err(step_err("initialize schema", "commit transaction", f));
            },
        }
        proof {
            assert(is_version_of(version as int, l0) && migrated(
                version as int,
                p0,
                l0,
                self.pieces(),
                self.ledger(),
            ));
        }
        Ok(())
    }

    /// Drops both managed tables, then reinitializes from version zero.
    /// Destructive and irreversible: afterwards the store holds no records
    /// and the ledger holds exactly the full ladder.
    pub fn reset(&mut self) -> (r: Result<(), StudFinderError>)
        requires
            old(self).wf(),
        ensures
            final(self).wf(),
            r is Ok ==> final(self).pieces() == empty_rows() && final(self).ledger()
                == empty_ledger().insert(1).insert(2) && is_version_of(2, final(self).ledger()),
            r is Err ==> (final(self).pieces() == old(self).pieces() && final(self).ledger()
                == old(self).ledger()) || (final(self).pieces() == empty_rows()
                && final(self).ledger() == empty_ledger()),
    {
        match sql_begin(&mut self.store) {
            Ok(()) => (),
            Err(f) => {
                return Err(step_err("reset schema", "begin transaction", f));
            },
        }
        match sql_drop_pieces_table(&mut self.store) {
            Ok(()) => (),
            Err(f) => {
                sql_rollback(&mut self.store);
                return Err(step_err("reset schema", "drop pieces table", f));
            },
        }
        match sql_drop_version_table(&mut self.store) {
            Ok(()) => (),
            Err(f) => {
                sql_rollback(&mut self.store);
                return Err(step_err("reset schema", "drop schema_version table", f));
            },
        }
        match sql_commit(&mut self.store) {
            Ok(()) => (),
            Err(f) => {
                sql_rollback(&mut self.store);
                return Err(step_err("reset schema", "commit transaction", f));
            },
        }
        match self.init() {
            Ok(()) => {
                proof {
                    assert(conf_defaulted(empty_rows()) =~= empty_rows());
                    assert(!empty_ledger().insert(1).insert(2).is_empty()) by {
                        assert(empty_ledger().insert(1).insert(2).contains(2));
                    }
                }
                Ok(())
            },
            Err(e) => Err(reset_failure(e)),
        }
    }


    /// Adds a record, merging on an existing id: a present id keeps its
    /// stored part number, color, category and confidence and accumulates
    /// the submitted quantity; an absent id is inserted whole. The lookup
    /// and the write happen inside one transaction; on failure the store is
    /// unchanged.
    pub fn add_piece(&mut self, piece: &Piece) -> (r: Result<(), StudFinderError>)
        requires
            old(self).wf(),
            piece@.valid(),
        ensures
            final(self).wf(),
            r is Ok ==> final(self).pieces() == upserted(old(self).pieces(), piece@) && final(self).ledger() == old(self).ledger(),
            r is Err ==> final(self).pieces() == old(self).pieces() && final(self).ledger() == old(self).ledger(),
    {
        match sql_begin(&mut self.store) {
            Ok(()) => (),
            Err(f) => {
                return Err(step_err("add piece", "begin transaction", f));
            },
        }
        let existing = match sql_select_piece(&self.store, piece_id_str(piece)) {
            Ok(o) => o,
            Err(f) => {
                sql_rollback(&mut self.store);
                return Err(step_err("add piece", "query existing piece", f));
            },
        };
        match existing {
            Some(row) => {
                let merged = match row.quantity.checked_add(piece.quantity) {
                    Some(q) => q,
                    None => {
                        sql_rollback(&mut self.store);
                        return Err(
                            StudFinderError::Database {
                                operation: String::from_str("update piece quantity"),
                                message: String::from_str("merged quantity overflows"),
                            },
                        );
                    },
                };
                match sql_update_quantity(&mut self.store, piece_id_str(piece), merged) {
                    Ok(_) => (),
                    Err(f) => {
                        sql_rollback(&mut self.store);
                        return Err(step_err("add piece", "update piece quantity", f));
                    },
                }
            },
            None => {
                let conf_text = conf_to_text(piece.confidence.milli);
                match sql_insert_piece(&mut self.store, piece, conf_text.as_str()) {
                    Ok(()) => (),
                    Err(f) => {
                        sql_rollback(&mut self.store);
                        return Err(step_err("add piece", "insert new piece", f));
                    },
                }
            },
        }
        match sql_commit(&mut self.store) {
            Ok(()) => (),
            Err(f) => {
                sql_rollback(&mut self.store);
                return Err(step_err("add piece", "commit transaction", f));
            },
        }
        Ok(())
    }

    /// Looks up a record by id. An absent id is an empty result, never an
    /// error.
    pub fn get_piece(&self, id: &str) -> (r: Result<Option<Piece>, StudFinderError>)
        ensures
            r matches Ok(Some(p)) ==> self.pieces().contains_key(id@) && piece_matches_row(
                p@,
                self.pieces()[id@],
            ) && p@.id == id@ && p.confidence.valid(),
            r matches Ok(None) ==> !self.pieces().contains_key(id@),
    {
        let row = match sql_select_piece(&self.store, id) {
            Ok(o) => o,
            Err(f) => {
                return Err(step_err("get piece", "query piece by id", f));
            },
        };
        match row {
            Some(row) => {
                match row_to_piece(&row) {
                    Some(p) => Ok(Some(p)),
                    None => Err(
                        StudFinderError::Database {
                            operation: String::from_str("query piece by id"),
                            message: String::from_str("stored confidence is not a valid value"),
                        },
                    ),
                }
            },
            None => Ok(None),
        }
    }

    /// Lists every record, in an order the engine chooses.
    pub fn list_pieces(&self) -> (r: Result<Vec<Piece>, StudFinderError>)
        ensures
            r matches Ok(ps) ==> pieces_listing(ps@, self.pieces()),
    {
        let rows = match sql_select_all(&self.store) {
            Ok(rows) => rows,
            Err(f) => {
                return Err(step_err("list pieces", "query all pieces", f));
            },
        };
        let ghost rvs = Seq::new(rows@.len(), |i: int| rows@[i]@);
        let mut out: Vec<Piece> = Vec::new();
        let mut i: usize = 0;
        while i < rows.len()
            invariant
                i <= rows.len(),
                rvs == Seq::new(rows@.len(), |k: int| rows@[k]@),
                rows_listing(rvs, self.pieces()),
                out@.len() == i as int,
                forall|k: int| 0 <= k < i ==> #[trigger] out@[k]@.id == rvs[k].id,
                forall|k: int|
                    0 <= k < i ==> self.pieces().contains_key(#[trigger] out@[k]@.id)
                        && piece_matches_row(out@[k]@, self.pieces()[out@[k]@.id]),
            decreases rows.len() - i,
        {
            assert(rvs[i as int] == rows@[i as int]@);
            match row_to_piece(&rows[i]) {
                Some(p) => {
                    out.push(p);
                },
                None => {
                    return Err(
                        StudFinderError::Database {
                            operation: String::from_str("query all pieces"),
                            message: String::from_str("stored confidence is not a valid value"),
                        },
                    );
                },
            }
            i = i + 1;
        }
        proof {
            assert forall|k: Seq<char>| self.pieces().contains_key(k) implies exists|n: int|
                0 <= n < out@.len() && #[trigger] out@[n]@.id == k by {
                let n = choose|n: int| 0 <= n < rvs.len() && #[trigger] rvs[n].id == k;
                assert(out@[n]@.id == k);
            }
        }
        Ok(out)
    }

    /// Sets a record's quantity to an absolute value. An absent id is a
    /// not-found error, distinct from engine failures, and the store is
    /// unchanged on every failure.
    pub fn update_quantity(&mut self, id: &str, quantity: i32) -> (r: Result<(), StudFinderError>)
        requires
            old(self).wf(),
            quantity >= 0,
        ensures
            final(self).wf(),
            final(self).ledger() == old(self).ledger(),
            r is Ok ==> old(self).pieces().contains_key(id@) && final(self).pieces() == old(self).pieces().insert(
                id@,
                RowView { quantity: quantity as int, ..old(self).pieces()[id@] },
            ),
            r is Err ==> final(self).pieces() == old(self).pieces(),
            r matches Err(e) ==> (e matches StudFinderError::PieceNotFound(s) ==> s@ == id@ && !old(self).pieces().contains_key(id@)),
            r is Err && old(self).pieces().contains_key(id@) ==> !(r->Err_0 is PieceNotFound),
    {
        let n = match sql_update_quantity(&mut self.store, id, quantity) {
            Ok(n) => n,
            Err(f) => {
                return Err(step_err("update quantity", "update piece quantity", f));
            },
        };
        if n == 0 {
            return Err(StudFinderError::PieceNotFound(String::from_str(id)));
        }
        Ok(())
    }

    /// Removes a record. An absent id is a not-found error, distinct from
    /// engine failures, and the store is unchanged on every failure.
    pub fn delete_piece(&mut self, id: &str) -> (r: Result<(), StudFinderError>)
        requires
            old(self).wf(),
        ensures
            final(self).wf(),
            final(self).ledger() == old(self).ledger(),
            r is Ok ==> old(self).pieces().contains_key(id@) && final(self).pieces() == old(self).pieces().remove(id@),
            r is Err ==> final(self).pieces() == old(self).pieces(),
            r matches Err(e) ==> (e matches StudFinderError::PieceNotFound(s) ==> s@ == id@ && !old(self).pieces().contains_key(id@)),
            r is Err && old(self).pieces().contains_key(id@) ==> !(r->Err_0 is PieceNotFound),
    {
        let n = match sql_delete_piece(&mut self.store, id) {
            Ok(n) => n,
            Err(f) => {
                return Err(step_err("delete piece", "delete piece by id", f));
            },
        };
        if n == 0 {
            return Err(StudFinderError::PieceNotFound(String::from_str(id)));
        }
        Ok(())
    }

    /// The persisted schema version: the ledger's maximum, or zero before
    /// any migration has run.
    pub fn get_schema_version(&self) -> (r: Result<i32, StudFinderError>)
        ensures
            r matches Ok(v) ==> is_version_of(v as int, self.ledger()),
    {
        match sql_max_version(&self.store) {
            Ok(v) => Ok(v),
            Err(f) => Err(step_err("get schema version", "query schema version", f)),
        }
    }
}

/// Migration idempotence: a second `init` run, started from the state a
/// completed run left behind, changes neither the ledger nor the records.
pub proof fn lemma_initialize_idempotent(
    v1: int,
    p0: Map<Seq<char>, RowView>,
    l0: Set<int>,
    p1: Map<Seq<char>, RowView>,
    l1: Set<int>,
    v2: int,
    p2: Map<Seq<char>, RowView>,
    l2: Set<int>,
)
    requires
        is_version_of(v1, l0),
        migrated(v1, p0, l0, p1, l1),
        is_version_of(v2, l1),
        migrated(v2, p1, l1, p2, l2),
    ensures
        p2 == p1,
        l2 == l1,
{
    if v1 < 2 {
        assert(l1.contains(2));
        assert(!l1.is_empty());
        assert(v2 >= 2);
    } else {
        assert(l1 == l0);
        assert(!l0.is_empty());
        assert(l0.contains(v1));
        assert(v2 >= v1);
    }
}

/// The persisted schema version never decreases: a completed `init` run
/// leaves the ledger's maximum at least where it started.
pub proof fn lemma_version_monotone(
    v: int,
    p0: Map<Seq<char>, RowView>,
    l0: Set<int>,
    p1: Map<Seq<char>, RowView>,
    l1: Set<int>,
    w: int,
)
    requires
        is_version_of(v, l0),
        migrated(v, p0, l0, p1, l1),
        is_version_of(w, l1),
    ensures
        w >= v,
{
    if v < 2 {
        assert(l1.contains(2));
        assert(!l1.is_empty());
        assert(w >= 2);
    } else {
        assert(!l0.is_empty());
        assert(l0.contains(v));
        assert(w >= v);
    }
}

/// Merge invariant: submitting an id twice accumulates the two quantities,
/// while the part number, color, category and confidence of the first
/// submission stay.
pub proof fn lemma_merge_accumulates(m: Map<Seq<char>, RowView>, a: PieceView, b: PieceView)
    requires
        a.id == b.id,
        !m.contains_key(a.id),
    ensures
        upserted(upserted(m, a), b).contains_key(a.id),
        upserted(upserted(m, a), b)[a.id].quantity == a.quantity + b.quantity,
        upserted(upserted(m, a), b)[a.id].part_number == a.part_number,
        upserted(upserted(m, a), b)[a.id].color == a.color,
        upserted(upserted(m, a), b)[a.id].category == a.category,
        upserted(upserted(m, a), b)[a.id].conf_text == conf_text_of(a.confidence),
{
}

/// Serialized adds with distinct ids both land: neither submission
/// disturbs the other's record, so no update is lost.
pub proof fn lemma_distinct_adds_both_present(
    m: Map<Seq<char>, RowView>,
    a: PieceView,
    b: PieceView,
)
    requires
        a.id != b.id,
        !m.contains_key(a.id),
        !m.contains_key(b.id),
    ensures
        upserted(upserted(m, a), b).contains_key(a.id),
        upserted(upserted(m, a), b).contains_key(b.id),
        upserted(upserted(m, a), b)[a.id] == row_of_piece(a),
        upserted(upserted(m, a), b)[b.id] == row_of_piece(b),
{
}

} // verus!
