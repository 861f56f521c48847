//! The session service on a real database in memory.

use rusqlite::types::Value as Sql;
use rusqlite::Connection;
use std::cell::Cell;
use std::collections::HashMap;
use termai::repository::schema::{
    migrate, row_to_name, unique_names, Column, Reading, Table, FETCH_NAMES,
};
use termai::repository::statement::{Statement, Value};
use termai::session::entity::{MessageEntity, SessionEntity};
use termai::session::message_repository::{
    count_messages_for_session, fetch_conversation_rows, fetch_first_user_message,
    fetch_messages_for_session, fetch_pending_messages, row_to_match, row_to_message_entity,
    row_to_stored_row, row_to_text, search_messages, StoredRow,
};
use termai::session::model::{Role, Session};
use termai::session::repair_service::{repair, undo};
use termai::session::session_repository::{
    fetch_all_sessions, fetch_session_by_name, row_to_session_entity, session_was_deleted,
};
use termai::session::sessions_service::{
    clear_unsent_messages, discard_if_empty, get_most_recent_session, opening_failure,
    persist_failure, persist_session, persisted, recover_unsent_messages, rename_looked_up,
    rename_session, renamed, session, session_with_messages, stored_message_count,
    unsaved_messages, write_ahead_failure, write_ahead_user_message, written_ahead, Opening,
    RenameStep, SessionFailure,
};
use termai::session::tables::Write;
use termai::time::Timestamp;

struct Store {
    conn: Connection,
    counter: Cell<i64>,
}

fn to_sql(value: &Value) -> Sql {
    match value {
        Value::Text(text) => Sql::Text(text.clone()),
        Value::Integer(number) => Sql::Integer(*number),
        Value::Null | Value::Other => Sql::Null,
    }
}

fn from_sql(value: Sql) -> Value {
    match value {
        Sql::Text(text) => Value::Text(text),
        Sql::Integer(number) => Value::Integer(number),
        Sql::Null => Value::Null,
        _ => Value::Other,
    }
}

impl Store {
    fn empty() -> Store {
        Store {
            conn: Connection::open(":memory:").expect("in-memory database"),
            counter: Cell::new(0),
        }
    }

    fn new() -> Store {
        let store = Store::empty();
        store.migrate();
        store
    }

    fn execute(&self, statement: &Statement) -> rusqlite::Result<usize> {
        self.conn.execute(
            &statement.sql,
            rusqlite::params_from_iter(statement.params.iter().map(to_sql)),
        )
    }

    fn query(&self, statement: &Statement) -> rusqlite::Result<Vec<Vec<Value>>> {
        let mut prepared = self.conn.prepare(&statement.sql)?;
        let width = prepared.column_count();
        let mut rows = prepared.query(rusqlite::params_from_iter(
            statement.params.iter().map(to_sql),
        ))?;
        let mut out = Vec::new();
        while let Some(row) = rows.next()? {
            let mut values = Vec::new();
            for i in 0..width {
                values.push(from_sql(row.get::<usize, Sql>(i)?));
            }
            out.push(values);
        }
        Ok(out)
    }

    fn columns(&self, table: Table) -> Vec<Column> {
        self.query(&table.info())
            .unwrap()
            .into_iter()
            .map(|row| match (&row[1], &row[2]) {
                (Value::Text(name), Value::Text(kind)) => Column {
                    name: name.clone(),
                    kind: kind.clone(),
                },
                _ => panic!("unexpected table_info"),
            })
            .collect()
    }

    fn migrate(&self) {
        for step in migrate() {
            let mut columns = Vec::new();
            let mut names = Vec::new();
            match step.reads() {
                Reading::Nothing => {}
                Reading::Columns(table) => columns = self.columns(table),
                Reading::Names => {
                    names = self
                        .query(&Statement::new(FETCH_NAMES, vec![]))
                        .unwrap()
                        .iter()
                        .map(|row| row_to_name(row).ok().expect("id and name"))
                        .collect()
                }
            }
            for (at, change) in step.changes(&columns, &names).iter().enumerate() {
                if let Err(error) = self.execute(&change.statement()) {
                    if step.forgives(at, &error.to_string()) {
                        break;
                    }
                    panic!("migration failed: {error}");
                }
            }
        }
    }

    fn write(&self, write: &Write) -> rusqlite::Result<usize> {
        let mut affected = 0;
        for statement in write.statements() {
            affected = self.execute(&statement)?;
        }
        Ok(affected)
    }

    fn tick(&self) -> i64 {
        self.counter.set(self.counter.get() + 1);
        self.counter.get()
    }

    fn now(&self) -> Timestamp {
        Timestamp {
            seconds: 1_700_000_000 + self.tick(),
            nanos: 0,
        }
    }

    fn fresh_id(&self) -> String {
        format!("id-{}", self.tick())
    }

    fn lookup(&self, name: &str) -> Option<SessionEntity> {
        let rows = self.query(&fetch_session_by_name(name)).unwrap();
        rows.first().map(|row| row_to_session_entity(row).ok().expect("session row"))
    }

    fn sessions(&self) -> Vec<SessionEntity> {
        self.query(&fetch_all_sessions())
            .unwrap()
            .iter()
            .map(|row| row_to_session_entity(row).ok().expect("session row"))
            .collect()
    }

    fn messages(&self, session_id: &str) -> Vec<MessageEntity> {
        self.query(&fetch_messages_for_session(session_id))
            .unwrap()
            .iter()
            .map(|row| row_to_message_entity(row).ok().expect("message row"))
            .collect()
    }

    fn count(&self, session_id: &str) -> i64 {
        match self.query(&count_messages_for_session(session_id)).unwrap()[0][0] {
            Value::Integer(n) => n,
            _ => panic!("count"),
        }
    }

    fn pending(&self, session_id: &str) -> Vec<String> {
        self.query(&fetch_pending_messages(session_id))
            .unwrap()
            .iter()
            .map(|row| row_to_text(row).ok().expect("content"))
            .collect()
    }

    fn stored_rows(&self, session_id: &str) -> Vec<StoredRow> {
        self.query(&fetch_conversation_rows(session_id))
            .unwrap()
            .iter()
            .map(|row| row_to_stored_row(row).ok().expect("stored row"))
            .collect()
    }

    fn row_counts(&self) -> (i64, i64) {
        let one = |sql: &str| -> i64 { self.conn.query_row(sql, [], |r| r.get(0)).unwrap() };
        (
            one("SELECT COUNT(*) FROM sessions"),
            one("SELECT COUNT(*) FROM messages"),
        )
    }

    fn has(&self, name: &str) -> bool {
        self.lookup(name).is_some()
    }
}

fn open(store: &Store, name: &str) -> Result<Session, String> {
    let found = store.lookup(name);
    let opened = match session(found.as_ref(), name, &store.fresh_id(), store.now()) {
        Opening::Found(session) => session,
        Opening::Create(plan) => {
            for (at, write) in plan.iter().enumerate() {
                if let Err(error) = store.write(write) {
                    return Err(opening_failure(name, at).message(&format!("{error:?}")));
                }
            }
            Session::from_entity(&store.lookup(name).expect("just created"))
        }
    };
    let rows = store.messages(&opened.id);
    Ok(session_with_messages(&opened, Some(rows)))
}

fn persist(store: &Store, chat: &mut Session) -> Result<(), String> {
    let now = store.now();
    let ids: Vec<String> = (0..unsaved_messages(chat)).map(|_| store.fresh_id()).collect();
    let plan = persist_session(chat, now, &ids);
    for (at, write) in plan.iter().enumerate() {
        if let Err(error) = store.write(write) {
            let failure = persist_failure(chat, &plan, at).message(&format!("{error:?}"));
            persisted(chat, now, &ids, at);
            return Err(failure);
        }
    }
    persisted(chat, now, &ids, plan.len());
    Ok(())
}

fn write_ahead(store: &Store, chat: &mut Session) -> Result<(), String> {
    let now = store.now();
    let id = store.fresh_id();
    let plan = write_ahead_user_message(chat, now, &id);
    for (at, write) in plan.iter().enumerate() {
        if let Err(error) = store.write(write) {
            written_ahead(chat, now, &id, at);
            return Err(write_ahead_failure(chat, at).message(&format!("{error:?}")));
        }
    }
    written_ahead(chat, now, &id, plan.len());
    Ok(())
}

fn rename(store: &Store, chat: &mut Session, new_name: &str) -> Result<(), String> {
    match rename_session(chat, new_name) {
        Err(error) => Err(error.message()),
        Ok(RenameStep::Unchanged) => Ok(()),
        Ok(RenameStep::LookUp(name)) => {
            let now = store.now();
            let existing = store.lookup(&name);
            match rename_looked_up(chat, &name, existing.as_ref(), now) {
                Err(error) => Err(error.message()),
                Ok(write) => {
                    store
                        .write(&write)
                        .map_err(|e| SessionFailure::Renaming.message(&format!("{e:?}")))?;
                    renamed(chat, &name, now);
                    Ok(())
                }
            }
        }
    }
}

fn stored(store: &Store, chat: &Session) -> Result<i64, String> {
    stored_message_count(Ok(store.count(&chat.id)))
}

fn recover(store: &Store, chat: &Session) -> Vec<String> {
    recover_unsent_messages(chat, Some(store.pending(&chat.id)))
}

fn resume(store: &Store) -> Result<Session, String> {
    let rows = store.sessions();
    let counts: Vec<Option<i64>> = rows.iter().map(|row| Some(store.count(&row.id))).collect();
    let found = get_most_recent_session(&rows, &counts)?;
    let messages = store.messages(&found.id);
    Ok(session_with_messages(&found, Some(messages)))
}

fn contents(chat: &Session) -> Vec<&str> {
    chat.messages.iter().map(|m| m.content.as_str()).collect()
}

/// The whole point: a chat that is not explicitly temporary reaches disk.
#[test]
fn a_conversation_is_written_to_the_database() {
    let store = Store::new();
    let mut chat = open(&store, "work").unwrap();
    chat.add_raw_message("hello".to_string(), Role::User);
    chat.add_raw_message("hi there".to_string(), Role::Assistant);

    persist(&store, &mut chat).unwrap();

    assert_eq!(store.row_counts(), (1, 2));
    assert_eq!(stored(&store, &chat).unwrap(), 2);
}

/// Ids are written back into the live conversation, so a message is stored
/// once and not re-inserted on every following turn.
#[test]
fn messages_are_stored_once_per_turn() {
    let store = Store::new();
    let mut chat = open(&store, "work").unwrap();

    for turn in 1..=5 {
        chat.add_raw_message(format!("q{turn}"), Role::User);
        chat.add_raw_message(format!("a{turn}"), Role::Assistant);
        persist(&store, &mut chat).unwrap();
    }

    assert_eq!(
        store.row_counts().1,
        10,
        "one row per message, not N(N+1)/2"
    );

    let reloaded = open(&store, "work").unwrap();
    assert_eq!(reloaded.messages.len(), 10);
}

#[test]
fn a_reloaded_conversation_keeps_its_order() {
    let store = Store::new();
    let mut chat = open(&store, "work").unwrap();
    for turn in 1..=4 {
        chat.add_raw_message(format!("q{turn}"), Role::User);
        chat.add_raw_message(format!("a{turn}"), Role::Assistant);
        persist(&store, &mut chat).unwrap();
    }

    let reloaded = open(&store, "work").unwrap();
    assert_eq!(
        contents(&reloaded),
        vec!["q1", "a1", "q2", "a2", "q3", "a3", "q4", "a4"]
    );
}

/// A dropped connection between the prompt and the response must not take the
/// prompt with it.
#[test]
fn an_unanswered_prompt_survives_a_failed_turn() {
    let store = Store::new();
    let mut chat = open(&store, "work").unwrap();
    chat.add_raw_message("expensive question".to_string(), Role::User);

    write_ahead(&store, &mut chat).unwrap();
    // ... the provider call fails here, and the turn is rolled back.
    chat.messages.pop();

    // It is not part of the conversation ...
    let reloaded = open(&store, "work").unwrap();
    assert!(reloaded.messages.is_empty());
    assert_eq!(stored(&store, &reloaded).unwrap(), 0);

    // ... but the text is still recoverable.
    assert_eq!(
        recover(&store, &reloaded),
        vec!["expensive question".to_string()]
    );
}

/// A prompt left unanswered by an earlier run must not silently reappear
/// inside a later conversation.
#[test]
fn a_recovered_prompt_is_not_folded_into_a_later_turn() {
    let store = Store::new();
    let mut chat = open(&store, "work").unwrap();
    chat.add_raw_message("lost prompt".to_string(), Role::User);
    write_ahead(&store, &mut chat).unwrap();
    chat.messages.pop();

    let mut chat = open(&store, "work").unwrap();
    chat.add_raw_message("new question".to_string(), Role::User);
    write_ahead(&store, &mut chat).unwrap();
    chat.add_raw_message("answer".to_string(), Role::Assistant);
    persist(&store, &mut chat).unwrap();

    let reloaded = open(&store, "work").unwrap();
    assert_eq!(contents(&reloaded), vec!["new question", "answer"]);
    assert_eq!(
        recover(&store, &reloaded),
        vec!["lost prompt".to_string()]
    );
}

#[test]
fn temporary_sessions_are_never_written() {
    let store = Store::new();
    let mut chat = Session::new_temporary(store.fresh_id(), store.now());
    chat.add_raw_message("hello".to_string(), Role::User);
    chat.add_raw_message("hi".to_string(), Role::Assistant);

    persist(&store, &mut chat).unwrap();
    write_ahead(&store, &mut chat).unwrap();

    assert_eq!(store.row_counts(), (0, 0));
}

#[test]
fn renaming_onto_another_session_is_refused() {
    let store = Store::new();
    let _taken = open(&store, "taken").unwrap();
    let mut chat = open(&store, "work").unwrap();

    let error = rename(&store, &mut chat, "taken").unwrap_err();
    assert!(error.contains("already called"));
    assert_eq!(chat.name, "work");

    rename(&store, &mut chat, "renamed").unwrap();
    assert_eq!(chat.name, "renamed");
    assert!(store.has("renamed"));
    assert!(!store.has("work"));
}

/// `--last` used to hand back whichever session was created most recently,
/// including an empty one that had never been used.
#[test]
fn the_last_session_is_one_with_a_conversation_in_it() {
    let store = Store::new();
    let mut real = open(&store, "real-work").unwrap();
    real.add_raw_message("a question".to_string(), Role::User);
    real.add_raw_message("an answer".to_string(), Role::Assistant);
    persist(&store, &mut real).unwrap();

    let _empty = open(&store, "opened-by-accident").unwrap();

    let resumed = resume(&store).unwrap();
    assert_eq!(resumed.name, "real-work");
    assert_eq!(resumed.messages.len(), 2);
}

#[test]
fn there_is_nothing_to_resume_without_sessions() {
    let store = Store::new();
    assert_eq!(
        resume(&store).unwrap_err(),
        "No previous sessions found. Start one with: termai chat --session <name>"
    );
    let only = open(&store, "only").unwrap();
    assert_eq!(resume(&store).unwrap().id, only.id);
}

#[test]
fn a_new_session_is_the_only_current_one() {
    let store = Store::new();
    open(&store, "first").unwrap();
    open(&store, "second").unwrap();
    let current: Vec<String> = store
        .sessions()
        .into_iter()
        .filter(|row| row.current != 0)
        .map(|row| row.name)
        .collect();
    assert_eq!(current, vec!["second"]);
}

#[test]
fn a_stored_session_reads_back_to_the_second() {
    let store = Store::new();
    let mut chat = open(&store, "work").unwrap();
    persist(&store, &mut chat).unwrap();
    let row = store.lookup("work").unwrap();
    assert_eq!(row.last_used_at, chat.last_used_at);
    assert_eq!(
        row.expires_at.seconds,
        chat.last_used_at.seconds + 24 * 3600
    );
}

#[test]
fn blank_and_unchanged_names_are_told_apart() {
    let store = Store::new();
    let mut chat = open(&store, "work").unwrap();
    let before = chat.last_used_at;
    assert_eq!(
        rename(&store, &mut chat, " \t ").unwrap_err(),
        "a session name cannot be empty"
    );
    rename(&store, &mut chat, "  work ").unwrap();
    assert_eq!(chat.last_used_at, before);
    assert_eq!(
        rename(&store, &mut chat, " other ").and(Ok(chat.name.clone())),
        Ok("other".to_string())
    );
}

#[test]
fn a_refused_write_is_reported_and_leaves_the_message_unsaved() {
    let store = Store::new();
    open(&store, "taken").unwrap();
    let mut chat = open(&store, "work").unwrap();
    chat.name = "taken".to_string();
    chat.add_raw_message("hello".to_string(), Role::User);
    let used = chat.last_used_at;

    let error = persist(&store, &mut chat).unwrap_err();
    assert!(error.starts_with("could not save session 'taken': "));
    assert_eq!(chat.messages[0].id, "");
    assert_eq!(chat.last_used_at, used);

    let error = write_ahead(&store, &mut chat).unwrap_err();
    assert!(error.starts_with("could not save session 'taken': "));
    assert_eq!(chat.messages[0].id, "");
}

#[test]
fn failures_name_what_was_being_done() {
    let store = Store::new();
    let mut chat = open(&store, "work").unwrap();
    chat.add_raw_message("hello".to_string(), Role::User);
    chat.add_raw_message("hi".to_string(), Role::Assistant);
    let ids = vec!["a".to_string(), "b".to_string()];
    let plan = persist_session(&chat, store.now(), &ids);
    assert_eq!(plan.len(), 4);
    assert_eq!(
        persist_failure(&chat, &plan, 1).message("x"),
        "could not save message: x"
    );
    assert_eq!(
        persist_failure(&chat, &plan, 3).message("x"),
        "could not finalise your message: x"
    );
    assert_eq!(
        write_ahead_failure(&chat, 1).message("x"),
        "could not save your message: x"
    );
    assert_eq!(
        opening_failure("n", 0).message("x"),
        "could not clear the current session: x"
    );
    assert_eq!(
        opening_failure("n", 1).message("x"),
        "could not create session 'n': x"
    );
    assert_eq!(
        opening_failure("n", 2).message("x"),
        "could not read back session 'n': x"
    );
    assert_eq!(
        SessionFailure::Fetching.message("x"),
        "Failed to fetch sessions: x"
    );
    assert_eq!(
        SessionFailure::Searching.message("x"),
        "could not search messages: x"
    );
    assert_eq!(
        SessionFailure::Renaming.message("x"),
        "could not rename session: x"
    );
    assert_eq!(
        stored_message_count(Err("x".to_string())).unwrap_err(),
        "could not read back the session: x"
    );
}

#[test]
fn only_the_writes_that_were_made_leave_their_ids() {
    let store = Store::new();
    let mut chat = open(&store, "work").unwrap();
    chat.add_raw_message("q".to_string(), Role::User);
    chat.add_raw_message("a".to_string(), Role::Assistant);
    let used = chat.last_used_at;
    let ids = vec!["x".to_string(), "y".to_string()];
    let now = store.now();
    persisted(&mut chat, now, &ids, 2);
    assert_eq!(chat.messages[0].id, "x");
    assert_eq!(chat.messages[1].id, "");
    assert_eq!(chat.last_used_at, used);
}

#[test]
fn an_abandoned_session_is_discarded_and_a_used_one_is_not() {
    let store = Store::new();
    let empty = open(&store, "empty").unwrap();
    let count = Some(store.count(&empty.id));
    let pending = Some(store.pending(&empty.id).len());
    let write = discard_if_empty(&empty, count, pending).expect("discarded");
    assert!(session_was_deleted(store.write(&write).unwrap()));
    assert!(!store.has("empty"));
    assert!(!session_was_deleted(store.write(&write).unwrap()));

    let mut waiting = open(&store, "waiting").unwrap();
    waiting.add_raw_message("q".to_string(), Role::User);
    write_ahead(&store, &mut waiting).unwrap();
    waiting.messages.pop();
    let count = Some(store.count(&waiting.id));
    let pending = Some(store.pending(&waiting.id).len());
    assert!(discard_if_empty(&waiting, count, pending).is_none());
    assert!(discard_if_empty(&waiting, None, Some(0)).is_none());
    assert!(discard_if_empty(&waiting, Some(0), None).is_none());
}

#[test]
fn cleared_prompts_are_gone_and_the_conversation_stays() {
    let store = Store::new();
    let mut chat = open(&store, "work").unwrap();
    chat.add_raw_message("q".to_string(), Role::User);
    chat.add_raw_message("a".to_string(), Role::Assistant);
    persist(&store, &mut chat).unwrap();
    chat.add_raw_message("lost".to_string(), Role::User);
    write_ahead(&store, &mut chat).unwrap();
    chat.messages.pop();
    let write = clear_unsent_messages(&chat).expect("not temporary");
    store.write(&write).unwrap();
    assert!(recover(&store, &chat).is_empty());
    assert_eq!(stored(&store, &chat).unwrap(), 2);
    let temporary = Session::new_temporary("t".to_string(), store.now());
    assert!(clear_unsent_messages(&temporary).is_none());
    assert!(recover_unsent_messages(&temporary, Some(vec!["x".to_string()])).is_empty());
    assert!(recover_unsent_messages(&chat, None).is_empty());
}

/// A percent sign or an underscore in a query stands for itself.
#[test]
fn a_search_takes_its_query_literally() {
    let store = Store::new();
    let mut chat = open(&store, "work").unwrap();
    for text in ["100% sure", "100 things", "a_b", "axb", "back\\slash"] {
        chat.add_raw_message(text.to_string(), Role::User);
    }
    persist(&store, &mut chat).unwrap();
    let found = |query: &str, limit: usize| -> Vec<String> {
        store
            .query(&search_messages(query, limit))
            .unwrap()
            .iter()
            .map(|row| row_to_match(row).ok().expect("match").content)
            .collect()
    };
    assert_eq!(found("100%", 10), vec!["100% sure"]);
    assert_eq!(found("a_b", 10), vec!["a_b"]);
    assert_eq!(found("k\\s", 10), vec!["back\\slash"]);
    assert_eq!(found("THINGS", 10), vec!["100 things"]);
    assert_eq!(found("100", 1), vec!["100% sure"]);
    assert!(found("nothing", 10).is_empty());
}

#[test]
fn the_first_prompt_of_a_session_is_found() {
    let store = Store::new();
    let mut chat = open(&store, "work").unwrap();
    chat.add_raw_message("note".to_string(), Role::Other("system".to_string()));
    chat.add_raw_message("first".to_string(), Role::User);
    chat.add_raw_message("second".to_string(), Role::User);
    persist(&store, &mut chat).unwrap();
    let rows = store.query(&fetch_first_user_message(&chat.id)).unwrap();
    assert_eq!(row_to_text(&rows[0]).ok().expect("content"), "first");
    let reloaded = open(&store, "work").unwrap();
    assert!(matches!(&reloaded.messages[0].role, Role::Other(name) if name == "system"));
}

/// A conversation that was inserted again on every turn is reduced to what
/// was said, repairing again finds nothing, and undoing puts it all back.
#[test]
fn a_damaged_session_is_repaired_and_restored() {
    let store = Store::new();
    let chat = open(&store, "work").unwrap();
    let mut id = 0;
    for turn in 1..=3 {
        for i in 1..=turn {
            for (role, text) in [("user", format!("q{i}")), ("assistant", format!("a{i}"))] {
                id += 1;
                store
                    .write(&Write::AddMessage {
                        message: MessageEntity::new_with_type(
                            format!("row-{id}"),
                            chat.id.clone(),
                            role.to_string(),
                            text,
                            "standard".to_string(),
                            None,
                        ),
                    })
                    .unwrap();
            }
        }
    }
    assert_eq!(store.count(&chat.id), 12);
    let sessions = vec![Session::from_entity(&store.lookup("work").unwrap())];

    let plan = repair(&sessions, &vec![store.stored_rows(&chat.id)], &vec![], true);
    assert_eq!(plan.repairs.len(), 1);
    assert_eq!(plan.repairs[0].kept(), 6);
    for write in &plan.marks {
        store.write(write).unwrap();
    }
    let repaired = open(&store, "work").unwrap();
    assert_eq!(
        contents(&repaired),
        vec!["q1", "a1", "q2", "a2", "q3", "a3"]
    );
    assert_eq!(store.row_counts().1, 12);

    let again = repair(&sessions, &vec![store.stored_rows(&chat.id)], &vec![], true);
    assert!(again.repairs.is_empty());
    assert!(again.marks.is_empty());

    assert_eq!(store.write(&undo()).unwrap(), 6);
    assert_eq!(store.count(&chat.id), 12);
}

/// Two damaged sessions are repaired and the repair is undone: both read as
/// they did before, and an unanswered prompt stays one.
#[test]
fn undoing_a_repair_of_two_sessions_restores_both() {
    let store = Store::new();
    let mut id = 0;
    let mut ids = Vec::new();
    for name in ["first", "second"] {
        let chat = open(&store, name).unwrap();
        let mut add = |role: &str, text: &str, kind: &str| {
            id += 1;
            store
                .write(&Write::AddMessage {
                    message: MessageEntity::new_with_type(
                        format!("row-{id}"),
                        chat.id.clone(),
                        role.to_string(),
                        text.to_string(),
                        kind.to_string(),
                        None,
                    ),
                })
                .unwrap();
        };
        add("user", "q1", "standard");
        add("assistant", "a1", "standard");
        add("user", "q1", "standard");
        add("assistant", "a1", "standard");
        add("user", "waiting", "pending");
        ids.push(chat.id);
    }
    let sessions: Vec<Session> = ["first", "second"]
        .iter()
        .map(|name| Session::from_entity(&store.lookup(name).unwrap()))
        .collect();
    let read = || -> Vec<Vec<(String, String, String)>> {
        ids.iter()
            .map(|id| {
                store
                    .messages(id)
                    .into_iter()
                    .map(|m| (m.id, m.role, m.content))
                    .collect()
            })
            .collect()
    };
    let before = read();
    let rows = ids.iter().map(|id| store.stored_rows(id)).collect();
    let plan = repair(&sessions, &rows, &vec![], true);
    assert_eq!(plan.marks.len(), 2);
    for write in &plan.marks {
        store.write(write).unwrap();
    }
    assert_eq!(store.count(&ids[0]), 2);
    assert_eq!(store.count(&ids[1]), 2);
    assert_eq!(store.write(&undo()).unwrap(), 4);
    assert_eq!(read(), before);
    assert_eq!(store.pending(&ids[1]), vec!["waiting"]);
}

#[test]
fn a_migration_can_be_run_again() {
    let store = Store::new();
    let before: Vec<String> = store
        .columns(Table::Messages)
        .into_iter()
        .map(|column| column.name)
        .collect();
    assert_eq!(
        before,
        vec![
            "id",
            "session_id",
            "role",
            "content",
            "message_type",
            "compaction_metadata",
            "sequence"
        ]
    );
    store.migrate();
    assert_eq!(store.columns(Table::Messages).len(), before.len());
    assert_eq!(store.columns(Table::Sessions).len(), 5);
}

/// An early database: numeric ids, sessions with a key, and two sessions of
/// one name.
#[test]
fn an_early_database_is_brought_up_to_date() {
    let store = Store::empty();
    store
        .conn
        .execute_batch(
            "CREATE TABLE messages (id INTEGER PRIMARY KEY, session_id TEXT, role TEXT, content TEXT);
             CREATE TABLE sessions (id TEXT NOT NULL, key TEXT NOT NULL, expires_at TEXT NOT NULL);
             INSERT INTO sessions VALUES ('s1', 'work', '2024-01-02 10:00:00');
             INSERT INTO sessions VALUES ('s2', 'work', '2024-01-03 10:00:00');
             INSERT INTO sessions VALUES ('s3', 'work', '2024-01-04 10:00:00');
             INSERT INTO messages VALUES (7, 's1', 'user', 'hello');
             INSERT INTO messages VALUES (8, 's1', 'assistant', 'hi');",
        )
        .unwrap();
    store.migrate();
    let mut names: Vec<String> = store.sessions().into_iter().map(|row| row.name).collect();
    names.sort();
    assert_eq!(names, vec!["work", "work-2", "work-3"]);
    let first = open(&store, "work").unwrap();
    assert_eq!(first.id, "s1");
    assert_eq!(contents(&first), vec!["hello", "hi"]);
    assert_eq!(first.messages[0].id, "7");
    assert_eq!(first.messages[0].message_type, "standard");
    // 2024-01-02 10:00:00, a day earlier.
    assert_eq!(first.last_used_at.seconds, 1_704_103_200);
    assert!(store
        .write(&Write::AddSession {
            id: "s9".to_string(),
            name: "work".to_string(),
            last_used_at: store.now(),
            current: false,
        })
        .is_err());
}

#[test]
fn a_shared_name_does_not_take_that_of_a_third_session() {
    let store = Store::empty();
    store
        .conn
        .execute_batch(
            "CREATE TABLE sessions (id TEXT NOT NULL, name TEXT NOT NULL, expires_at TEXT NOT NULL, current INTEGER NOT NULL DEFAULT 0);
             INSERT INTO sessions VALUES ('a', 'work', '2024-01-02 10:00:00', 0);
             INSERT INTO sessions VALUES ('b', 'work', '2024-01-03 10:00:00', 0);
             INSERT INTO sessions VALUES ('c', 'work-2', '2024-01-04 10:00:00', 0);
             INSERT INTO sessions VALUES ('d', 'work-2', '2024-01-05 10:00:00', 0);
             INSERT INTO sessions VALUES ('e', 'work', '2024-01-06 10:00:00', 0);",
        )
        .unwrap();
    store.migrate();
    let names: HashMap<String, String> = store
        .sessions()
        .into_iter()
        .map(|row| (row.id, row.name))
        .collect();
    assert_eq!(names["a"], "work");
    assert_eq!(names["b"], "work-3");
    assert_eq!(names["c"], "work-2");
    assert_eq!(names["d"], "work-2-3");
    assert_eq!(names["e"], "work-4");
    for taken in ["work", "work-2", "work-3", "work-4", "work-2-3"] {
        assert!(store
            .write(&Write::AddSession {
                id: "z".to_string(),
                name: taken.to_string(),
                last_used_at: store.now(),
                current: false,
            })
            .is_err());
    }
    // A second migration finds nothing to do.
    store.migrate();
    assert_eq!(open(&store, "work").unwrap().id, "a");
    assert_eq!(open(&store, "work-3").unwrap().id, "b");
}

#[test]
fn names_that_differ_are_left_alone() {
    let row = |id: &str, name: &str| (id.to_string(), name.to_string());
    assert!(unique_names(&vec![]).is_empty());
    assert!(unique_names(&vec![row("a", "x"), row("b", "x-2"), row("c", "X")]).is_empty());
    let changes = unique_names(&vec![row("a", "x"), row("b", "x-2"), row("c", "x")]);
    assert_eq!(changes.len(), 1);
    assert_eq!(
        format!("{:?}", changes[0].statement().params),
        "[Text(\"-3\"), Text(\"c\")]"
    );
}
