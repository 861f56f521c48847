//! The statements behind the sessions table.

#[allow(unused_imports)]
use crate::repository::statement::{cells, small_cell, text_cell, Cell};
use crate::repository::statement::{
    no_params, small_at, text, text_at, text_params, BadColumn, Statement, Value,
};
use crate::session::entity::SessionEntity;
#[allow(unused_imports)]
use crate::time::{formatted, stored_time, DATE_TIME_FORMAT};
use crate::time::{format_time, legacy_expires_at, parse_time, Timestamp};
use vstd::prelude::*;

verus! {

// Every session read shares its columns. `last_used_at` is backfilled by the
// migration, but a row written by an older program can still be NULL, so it
// falls back to the legacy `expires_at - 24h` encoding.
pub const FETCH_ALL_SESSIONS: &'static str =
    "SELECT id, name, expires_at, current, COALESCE(last_used_at, datetime(expires_at, '-24 hours')) FROM sessions";

pub const FETCH_SESSION_BY_NAME: &'static str =
    "SELECT id, name, expires_at, current, COALESCE(last_used_at, datetime(expires_at, '-24 hours')) FROM sessions WHERE name = ?1";

pub const ADD_SESSION: &'static str =
    "INSERT INTO sessions (id, name, expires_at, current, last_used_at) VALUES (?1, ?2, ?3, ?4, ?5)";

pub const UPSERT_SESSION: &'static str =
    "INSERT INTO sessions (id, name, expires_at, current, last_used_at) VALUES (?1, ?2, ?3, ?4, ?5) ON CONFLICT(id) DO UPDATE SET name = excluded.name, expires_at = excluded.expires_at, current = excluded.current, last_used_at = excluded.last_used_at";

pub const REMOVE_CURRENT_FROM_ALL: &'static str = "UPDATE sessions SET current = 0";

pub const DELETE_MESSAGES_OF_SESSION: &'static str = "DELETE FROM messages WHERE session_id = ?1";

pub const DELETE_SESSION: &'static str = "DELETE FROM sessions WHERE id = ?1";

/// The parameters that write a session row.
pub open spec fn session_cells(
    id: Seq<char>,
    name: Seq<char>,
    last_used_at: Timestamp,
    current: bool,
) -> Seq<Cell> {
    seq![
        Cell::Text(id),
        Cell::Text(name),
        Cell::Text(
            formatted(
                (last_used_at.seconds + 86400) as i64,
                (last_used_at.nanos % 1_000_000_000) as u32,
                DATE_TIME_FORMAT@,
            ),
        ),
        Cell::Integer(if current {
            1
        } else {
            0
        }),
        Cell::Text(formatted(last_used_at.seconds, last_used_at.nanos, DATE_TIME_FORMAT@)),
    ]
}

fn session_params(id: &str, name: &str, last_used_at: Timestamp, current: bool) -> (r: Vec<Value>)
    requires
        last_used_at.storable(),
    ensures
        cells(r@) == session_cells(id@, name@, last_used_at, current),
{
    let mut r: Vec<Value> = Vec::new();
    r.push(text(id));
    r.push(text(name));
    r.push(Value::Text(legacy_expires_at(last_used_at)));
    r.push(
        Value::Integer(
            if current {
                1
            } else {
                0
            },
        ),
    );
    r.push(Value::Text(format_time(last_used_at)));
    assert(cells(r@) =~= session_cells(id@, name@, last_used_at, current));
    r
}

fn one_param(s: &str) -> (r: Vec<Value>)
    ensures
        cells(r@) == seq![Cell::Text(s@)],
{
    let r = text_params(&vec![s]);
    assert(cells(r@) =~= seq![Cell::Text(s@)]);
    r
}

pub fn fetch_all_sessions() -> (r: Statement)
    ensures
        r.is(FETCH_ALL_SESSIONS@, Seq::<Cell>::empty()),
{
    Statement::new(FETCH_ALL_SESSIONS, no_params())
}

pub fn fetch_session_by_name(name: &str) -> (r: Statement)
    ensures
        r.is(FETCH_SESSION_BY_NAME@, seq![Cell::Text(name@)]),
{
    Statement::new(FETCH_SESSION_BY_NAME, one_param(name))
}

pub fn add_session(id: &str, name: &str, last_used_at: Timestamp, current: bool) -> (r: Statement)
    requires
        last_used_at.storable(),
    ensures
        r.is(ADD_SESSION@, session_cells(id@, name@, last_used_at, current)),
{
    Statement::new(ADD_SESSION, session_params(id, name, last_used_at, current))
}

/// Write the session row whether or not it already exists. An update alone
/// silently affects no rows for a session that was never inserted.
pub fn upsert_session(id: &str, name: &str, last_used_at: Timestamp, current: bool) -> (r:
    Statement)
    requires
        last_used_at.storable(),
    ensures
        r.is(UPSERT_SESSION@, session_cells(id@, name@, last_used_at, current)),
{
    Statement::new(UPSERT_SESSION, session_params(id, name, last_used_at, current))
}

pub fn remove_current_from_all() -> (r: Statement)
    ensures
        r.is(REMOVE_CURRENT_FROM_ALL@, Seq::<Cell>::empty()),
{
    Statement::new(REMOVE_CURRENT_FROM_ALL, no_params())
}

/// The two statements that delete a session, its messages first. They are one
/// transaction.
pub fn delete_session(session_id: &str) -> (r: Vec<Statement>)
    ensures
        r@.len() == 2,
        r@[0].is(DELETE_MESSAGES_OF_SESSION@, seq![Cell::Text(session_id@)]),
        r@[1].is(DELETE_SESSION@, seq![Cell::Text(session_id@)]),
{
    let mut r: Vec<Statement> = Vec::new();
    r.push(Statement::new(DELETE_MESSAGES_OF_SESSION, one_param(session_id)));
    r.push(Statement::new(DELETE_SESSION, one_param(session_id)));
    r
}

/// Deleting a session that is not there is an error, though the transaction
/// goes through.
pub fn session_was_deleted(rows_affected: usize) -> (r: bool)
    ensures
        r == (rows_affected != 0),
{
    rows_affected != 0
}

/// The session row in a list of columns, or the first column that does not
/// hold what it should.
pub fn row_to_session_entity(row: &Vec<Value>) -> (r: Result<SessionEntity, BadColumn>)
    ensures
        ({
            let c = cells(row@);
            match r {
                Ok(e) => {
                    &&& text_cell(c, 0) == Some(e.id@)
                    &&& text_cell(c, 1) == Some(e.name@)
                    &&& text_cell(c, 2) is Some
                    &&& (e.expires_at.seconds, e.expires_at.nanos) == stored_time(
                        text_cell(c, 2)->0,
                    )
                    &&& small_cell(c, 3) == Some(e.current as int)
                    &&& text_cell(c, 4) is Some
                    &&& (e.last_used_at.seconds, e.last_used_at.nanos) == stored_time(
                        text_cell(c, 4)->0,
                    )
                    &&& e.expires_at.valid()
                    &&& e.last_used_at.valid()
                },
                Err(BadColumn(i)) => {
                    &&& i < 5
                    &&& if i == 3 {
                        small_cell(c, 3) is None
                    } else {
                        text_cell(c, i as int) is None
                    }
                    &&& forall|k: int|
                        0 <= k < i ==> if k == 3 {
                            small_cell(c, k) is Some
                        } else {
                            #[trigger] text_cell(c, k) is Some
                        }
                },
            }
        }),
{
    let id = match text_at(row, 0) {
        Some(s) => s,
        None => return Err(BadColumn(0)),
    };
    let name = match text_at(row, 1) {
        Some(s) => s,
        None => return Err(BadColumn(1)),
    };
    let expires_at = match text_at(row, 2) {
        Some(s) => s,
        None => return Err(BadColumn(2)),
    };
    let current = match small_at(row, 3) {
        Some(n) => n,
        None => return Err(BadColumn(3)),
    };
    let last_used_at = match text_at(row, 4) {
        Some(s) => s,
        None => return Err(BadColumn(4)),
    };
    Ok(
        SessionEntity::new(
            id,
            name,
            parse_time(expires_at.as_str()),
            current,
            parse_time(last_used_at.as_str()),
        ),
    )
}

} // verus!
