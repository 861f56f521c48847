//! What the two tables hold, and what each write does to them.
//!
//! The tables are described, not implemented: the description is what the
//! laws of the services speak of.

use crate::repository::statement::Statement;
#[allow(unused_imports)]
use crate::repository::statement::Cell;
use crate::session::entity::MessageEntity;
use crate::session::message_repository;
#[allow(unused_imports)]
use crate::session::message_repository::{
    message_cells, ADD_MESSAGE, DISCARD_PENDING, DUPLICATE, MARK_DUPLICATE, PENDING,
    PROMOTE_MESSAGE, RESTORE_DUPLICATES,
};
#[allow(unused_imports)]
use crate::session::model::{Message, STANDARD};
use crate::session::session_repository;
#[allow(unused_imports)]
use crate::session::session_repository::{
    session_cells, ADD_SESSION, DELETE_MESSAGES_OF_SESSION, DELETE_SESSION,
    REMOVE_CURRENT_FROM_ALL, UPSERT_SESSION,
};
#[allow(unused_imports)]
use crate::text::texts;
use crate::time::Timestamp;
use vstd::prelude::*;

verus! {

// ---------------------------------------------------------------------
// Rows
// ---------------------------------------------------------------------

/// A row of the sessions table.
pub struct SessionRow {
    pub id: Seq<char>,
    pub name: Seq<char>,
    pub last_used_at: Timestamp,
    pub current: bool,
}

/// What a message says, apart from where it stands.
pub struct Turn {
    pub id: Seq<char>,
    pub role: Seq<char>,
    pub content: Seq<char>,
    pub kind: Seq<char>,
    pub metadata: Option<Seq<char>>,
}

/// A row of the messages table.
pub struct MessageRow {
    pub session_id: Seq<char>,
    pub turn: Turn,
    pub sequence: int,
}

/// Both tables, each in the order in which its rows were inserted.
pub struct Tables {
    pub sessions: Seq<SessionRow>,
    pub messages: Seq<MessageRow>,
}

/// The characters of an optional text.
pub open spec fn optional_text(s: Option<String>) -> Option<Seq<char>> {
    match s {
        Some(s) => Some(s@),
        None => None,
    }
}

/// What a message of a conversation says.
pub open spec fn turn_of(m: Message) -> Turn {
    Turn {
        id: m.id@,
        role: m.role.name(),
        content: m.content@,
        kind: m.message_type@,
        metadata: optional_text(m.compaction_metadata),
    }
}

/// What a row that was read or is to be written says.
pub open spec fn turn_of_entity(m: MessageEntity) -> Turn {
    Turn {
        id: m.id@,
        role: m.role@,
        content: m.content@,
        kind: m.message_type@,
        metadata: optional_text(m.compaction_metadata),
    }
}

// ---------------------------------------------------------------------
// Reads
// ---------------------------------------------------------------------

/// The row belongs to the session's conversation: it is neither waiting for
/// an answer nor set aside by repair.
pub open spec fn in_conversation(row: MessageRow, session_id: Seq<char>) -> bool {
    row.session_id == session_id && row.turn.kind != PENDING@ && row.turn.kind != DUPLICATE@
}

/// The row is a prompt of the session that was never answered.
pub open spec fn is_pending(row: MessageRow, session_id: Seq<char>) -> bool {
    row.session_id == session_id && row.turn.kind == PENDING@
}

/// The session's conversation, in the order of its rows.
pub open spec fn conversation(messages: Seq<MessageRow>, session_id: Seq<char>) -> Seq<Turn>
    decreases messages.len(),
{
    if messages.len() == 0 {
        Seq::empty()
    } else {
        let rest = conversation(messages.drop_last(), session_id);
        if in_conversation(messages.last(), session_id) {
            rest.push(messages.last().turn)
        } else {
            rest
        }
    }
}

/// The session's unanswered prompts, oldest first.
pub open spec fn pending(messages: Seq<MessageRow>, session_id: Seq<char>) -> Seq<Turn>
    decreases messages.len(),
{
    if messages.len() == 0 {
        Seq::empty()
    } else {
        let rest = pending(messages.drop_last(), session_id);
        if is_pending(messages.last(), session_id) {
            rest.push(messages.last().turn)
        } else {
            rest
        }
    }
}

// ---------------------------------------------------------------------
// Writes
// ---------------------------------------------------------------------

/// One thing a service asks of the store.
#[derive(Debug)]
pub enum Write {
    AddSession { id: String, name: String, last_used_at: Timestamp, current: bool },
    UpsertSession { id: String, name: String, last_used_at: Timestamp, current: bool },
    RemoveCurrentFromAll,
    DeleteSession { id: String },
    AddMessage { message: MessageEntity },
    PromoteMessage { id: String },
    DiscardPending { session_id: String },
    MarkDuplicates { ids: Vec<String> },
    RestoreDuplicates,
}

/// A write, with its texts by their characters.
pub enum Change {
    AddSession(SessionRow),
    UpsertSession(SessionRow),
    RemoveCurrentFromAll,
    DeleteSession(Seq<char>),
    AddMessage(Seq<char>, Turn),
    PromoteMessage(Seq<char>),
    DiscardPending(Seq<char>),
    MarkDuplicates(Seq<Seq<char>>),
    RestoreDuplicates,
}

impl View for Write {
    type V = Change;

    open spec fn view(&self) -> Change {
        match self {
            Write::AddSession { id, name, last_used_at, current } => Change::AddSession(
                SessionRow {
                    id: id@,
                    name: name@,
                    last_used_at: *last_used_at,
                    current: *current,
                },
            ),
            Write::UpsertSession { id, name, last_used_at, current } => Change::UpsertSession(
                SessionRow {
                    id: id@,
                    name: name@,
                    last_used_at: *last_used_at,
                    current: *current,
                },
            ),
            Write::RemoveCurrentFromAll => Change::RemoveCurrentFromAll,
            Write::DeleteSession { id } => Change::DeleteSession(id@),
            Write::AddMessage { message } => Change::AddMessage(
                message.session_id@,
                turn_of_entity(*message),
            ),
            Write::PromoteMessage { id } => Change::PromoteMessage(id@),
            Write::DiscardPending { session_id } => Change::DiscardPending(session_id@),
            Write::MarkDuplicates { ids } => Change::MarkDuplicates(texts(ids@)),
            Write::RestoreDuplicates => Change::RestoreDuplicates,
        }
    }
}

/// The changes of a list of writes.
pub open spec fn changes(writes: Seq<Write>) -> Seq<Change> {
    writes.map_values(|w: Write| w@)
}

impl Write {
    /// The times it writes can be written.
    pub open spec fn storable(self) -> bool {
        match self {
            Write::AddSession { last_used_at, .. } => last_used_at.storable(),
            Write::UpsertSession { last_used_at, .. } => last_used_at.storable(),
            _ => true,
        }
    }

    /// These statements, in one transaction, are what the write is made of.
    pub open spec fn consists_of(self, statements: Seq<Statement>) -> bool {
        match self {
            Write::AddSession { id, name, last_used_at, current } => statements.len() == 1
                && statements[0].is(
                ADD_SESSION@,
                session_cells(id@, name@, last_used_at, current),
            ),
            Write::UpsertSession { id, name, last_used_at, current } => statements.len() == 1
                && statements[0].is(
                UPSERT_SESSION@,
                session_cells(id@, name@, last_used_at, current),
            ),
            Write::RemoveCurrentFromAll => statements.len() == 1 && statements[0].is(
                REMOVE_CURRENT_FROM_ALL@,
                Seq::<Cell>::empty(),
            ),
            Write::DeleteSession { id } => statements.len() == 2 && statements[0].is(
                DELETE_MESSAGES_OF_SESSION@,
                seq![Cell::Text(id@)],
            ) && statements[1].is(DELETE_SESSION@, seq![Cell::Text(id@)]),
            Write::AddMessage { message } => statements.len() == 1 && statements[0].is(
                ADD_MESSAGE@,
                message_cells(message),
            ),
            Write::PromoteMessage { id } => statements.len() == 1 && statements[0].is(
                PROMOTE_MESSAGE@,
                seq![Cell::Text(id@), Cell::Text(PENDING@)],
            ),
            Write::DiscardPending { session_id } => statements.len() == 1 && statements[0].is(
                DISCARD_PENDING@,
                seq![Cell::Text(session_id@), Cell::Text(PENDING@)],
            ),
            Write::MarkDuplicates { ids } => {
                &&& statements.len() == ids@.len()
                &&& forall|i: int|
                    0 <= i < ids@.len() ==> (#[trigger] statements[i]).is(
                        MARK_DUPLICATE@,
                        seq![Cell::Text(DUPLICATE@), Cell::Text(ids@[i]@)],
                    )
            },
            Write::RestoreDuplicates => statements.len() == 1 && statements[0].is(
                RESTORE_DUPLICATES@,
                seq![Cell::Text(DUPLICATE@)],
            ),
        }
    }

    /// The statements of a write, in order. They are one transaction.
    pub fn statements(&self) -> (r: Vec<Statement>)
        requires
            self.storable(),
        ensures
            self.consists_of(r@),
    {
        match self {
            Write::AddSession { id, name, last_used_at, current } => vec![
                session_repository::add_session(
                    id.as_str(),
                    name.as_str(),
                    *last_used_at,
                    *current,
                ),
            ],
            Write::UpsertSession { id, name, last_used_at, current } => vec![
                session_repository::upsert_session(
                    id.as_str(),
                    name.as_str(),
                    *last_used_at,
                    *current,
                ),
            ],
            Write::RemoveCurrentFromAll => vec![session_repository::remove_current_from_all()],
            Write::DeleteSession { id } => session_repository::delete_session(id.as_str()),
            Write::AddMessage { message } => vec![
                message_repository::add_message_to_session(message),
            ],
            Write::PromoteMessage { id } => vec![message_repository::promote_message(id.as_str())],
            Write::DiscardPending { session_id } => vec![
                message_repository::discard_pending_messages(session_id.as_str()),
            ],
            Write::MarkDuplicates { ids } => message_repository::mark_duplicates(ids),
            Write::RestoreDuplicates => vec![message_repository::restore_duplicates()],
        }
    }
}

// ---------------------------------------------------------------------
// What a write does
// ---------------------------------------------------------------------

/// A session has this id.
pub open spec fn has_session(sessions: Seq<SessionRow>, id: Seq<char>) -> bool {
    exists|i: int| 0 <= i < sessions.len() && (#[trigger] sessions[i]).id == id
}

/// A session other than `id` has this name.
pub open spec fn name_taken(sessions: Seq<SessionRow>, id: Seq<char>, name: Seq<char>) -> bool {
    exists|i: int|
        0 <= i < sessions.len() && (#[trigger] sessions[i]).name == name && sessions[i].id != id
}

/// A session has this name.
pub open spec fn has_name(sessions: Seq<SessionRow>, name: Seq<char>) -> bool {
    exists|i: int| 0 <= i < sessions.len() && (#[trigger] sessions[i]).name == name
}

/// A message has this id.
pub open spec fn has_message(messages: Seq<MessageRow>, id: Seq<char>) -> bool {
    exists|i: int| 0 <= i < messages.len() && (#[trigger] messages[i]).turn.id == id
}

/// One more than the highest number a row of the session has.
pub open spec fn next_sequence(messages: Seq<MessageRow>, session_id: Seq<char>) -> int
    decreases messages.len(),
{
    if messages.len() == 0 {
        1
    } else {
        let rest = next_sequence(messages.drop_last(), session_id);
        let last = messages.last();
        if last.session_id == session_id && last.sequence >= rest {
            last.sequence + 1
        } else {
            rest
        }
    }
}

/// A row of another kind.
pub open spec fn with_kind(row: MessageRow, kind: Seq<char>) -> MessageRow {
    MessageRow { turn: Turn { kind, ..row.turn }, ..row }
}

/// The message with this id, if it was pending, is now an ordinary one.
pub open spec fn promoted(messages: Seq<MessageRow>, id: Seq<char>) -> Seq<MessageRow> {
    messages.map_values(
        |row: MessageRow|
            if row.turn.id == id && row.turn.kind == PENDING@ {
                with_kind(row, STANDARD@)
            } else {
                row
            },
    )
}

/// The messages with these ids are set aside.
pub open spec fn marked(messages: Seq<MessageRow>, ids: Seq<Seq<char>>) -> Seq<MessageRow> {
    messages.map_values(
        |row: MessageRow|
            if ids.contains(row.turn.id) {
                with_kind(row, DUPLICATE@)
            } else {
                row
            },
    )
}

/// The messages that were set aside are ordinary ones again.
pub open spec fn restored(messages: Seq<MessageRow>) -> Seq<MessageRow> {
    messages.map_values(
        |row: MessageRow|
            if row.turn.kind == DUPLICATE@ {
                with_kind(row, STANDARD@)
            } else {
                row
            },
    )
}

/// The sessions with the row of the given id replaced.
pub open spec fn replaced(sessions: Seq<SessionRow>, row: SessionRow) -> Seq<SessionRow> {
    sessions.map_values(
        |old: SessionRow|
            if old.id == row.id {
                row
            } else {
                old
            },
    )
}

/// The tables after a write, or nothing when a constraint refuses it: ids of
/// sessions and messages and names of sessions are unique.
pub open spec fn after(t: Tables, change: Change) -> Option<Tables> {
    match change {
        Change::AddSession(row) => if has_session(t.sessions, row.id) || has_name(
            t.sessions,
            row.name,
        ) {
            None
        } else {
            Some(Tables { sessions: t.sessions.push(row), ..t })
        },
        Change::UpsertSession(row) => if name_taken(t.sessions, row.id, row.name) {
            None
        } else if has_session(t.sessions, row.id) {
            Some(Tables { sessions: replaced(t.sessions, row), ..t })
        } else {
            Some(Tables { sessions: t.sessions.push(row), ..t })
        },
        Change::RemoveCurrentFromAll => Some(
            Tables {
                sessions: t.sessions.map_values(
                    |row: SessionRow| SessionRow { current: false, ..row },
                ),
                ..t
            },
        ),
        Change::DeleteSession(id) => Some(
            Tables {
                sessions: t.sessions.filter(|row: SessionRow| row.id != id),
                messages: t.messages.filter(|row: MessageRow| row.session_id != id),
            },
        ),
        Change::AddMessage(session_id, turn) => if has_message(t.messages, turn.id) {
            None
        } else {
            Some(
                Tables {
                    messages: t.messages.push(
                        MessageRow {
                            session_id,
                            turn,
                            sequence: next_sequence(t.messages, session_id),
                        },
                    ),
                    ..t
                },
            )
        },
        Change::PromoteMessage(id) => Some(Tables { messages: promoted(t.messages, id), ..t }),
        Change::DiscardPending(session_id) => Some(
            Tables {
                messages: t.messages.filter(|row: MessageRow| !is_pending(row, session_id)),
                ..t
            },
        ),
        Change::MarkDuplicates(ids) => Some(Tables { messages: marked(t.messages, ids), ..t }),
        Change::RestoreDuplicates => Some(Tables { messages: restored(t.messages), ..t }),
    }
}

/// The tables after a list of writes, or nothing once one is refused.
pub open spec fn after_all(t: Tables, list: Seq<Change>) -> Option<Tables>
    decreases list.len(),
{
    if list.len() == 0 {
        Some(t)
    } else {
        match after_all(t, list.drop_last()) {
            Some(u) => after(u, list.last()),
            None => None,
        }
    }
}

// ---------------------------------------------------------------------
// The invariant of the tables
// ---------------------------------------------------------------------

/// Ids and names are unique, and the rows of each session are numbered in the
/// order in which they were inserted.
pub open spec fn consistent(t: Tables) -> bool {
    &&& forall|i: int, j: int|
        #![trigger t.sessions[i], t.sessions[j]]
        0 <= i < j < t.sessions.len() ==> t.sessions[i].id != t.sessions[j].id && t.sessions[i].name
            != t.sessions[j].name
    &&& forall|i: int, j: int|
        #![trigger t.messages[i], t.messages[j]]
        0 <= i < j < t.messages.len() ==> {
            &&& t.messages[i].turn.id != t.messages[j].turn.id
            &&& t.messages[i].session_id == t.messages[j].session_id ==> t.messages[i].sequence
                < t.messages[j].sequence
        }
}

proof fn lemma_next_sequence(messages: Seq<MessageRow>, session_id: Seq<char>)
    ensures
        forall|i: int|
            0 <= i < messages.len() && (#[trigger] messages[i]).session_id == session_id
                ==> messages[i].sequence < next_sequence(messages, session_id),
    decreases messages.len(),
{
    if messages.len() > 0 {
        let rest = messages.drop_last();
        lemma_next_sequence(rest, session_id);
        assert forall|i: int|
            0 <= i < messages.len() && (#[trigger] messages[i]).session_id
                == session_id implies messages[i].sequence < next_sequence(
            messages,
            session_id,
        ) by {
            if i < rest.len() {
                assert(rest[i] == messages[i]);
            }
        }
    }
}

proof fn lemma_filter_picks<T>(s: Seq<T>, keep: spec_fn(T) -> bool) -> (at: Seq<int>)
    ensures
        at.len() == s.filter(keep).len(),
        forall|i: int|
            0 <= i < at.len() ==> 0 <= #[trigger] at[i] < s.len() && s.filter(keep)[i] == s[at[i]],
        forall|i: int, j: int| 0 <= i < j < at.len() ==> #[trigger] at[i] < #[trigger] at[j],
    decreases s.len(),
{
    reveal(Seq::filter);
    if s.len() == 0 {
        Seq::empty()
    } else {
        let rest = lemma_filter_picks(s.drop_last(), keep);
        if keep(s.last()) {
            rest.push(s.len() - 1)
        } else {
            rest
        }
    }
}

/// Every write that is not refused leaves the tables consistent.
pub proof fn every_write_keeps_the_tables_consistent(t: Tables, change: Change)
    requires
        consistent(t),
        after(t, change) is Some,
    ensures
        consistent(after(t, change)->0),
{
    let u = after(t, change)->0;
    match change {
        Change::DeleteSession(id) => {
            let at = lemma_filter_picks(t.sessions, |row: SessionRow| row.id != id);
            let of = lemma_filter_picks(t.messages, |row: MessageRow| row.session_id != id);
            assert forall|i: int, j: int|
                #![trigger u.sessions[i], u.sessions[j]]
                0 <= i < j < u.sessions.len() implies u.sessions[i].id != u.sessions[j].id
                && u.sessions[i].name != u.sessions[j].name by {
                assert(at[i] < at[j]);
                assert(t.sessions[at[i]].id != t.sessions[at[j]].id);
            }
            assert forall|i: int, j: int|
                #![trigger u.messages[i], u.messages[j]]
                0 <= i < j < u.messages.len() implies {
                &&& u.messages[i].turn.id != u.messages[j].turn.id
                &&& u.messages[i].session_id == u.messages[j].session_id ==> u.messages[i].sequence
                    < u.messages[j].sequence
            } by {
                assert(of[i] < of[j]);
                assert(t.messages[of[i]].turn.id != t.messages[of[j]].turn.id);
            }
        },
        Change::DiscardPending(session_id) => {
            let of = lemma_filter_picks(
                t.messages,
                |row: MessageRow| !is_pending(row, session_id),
            );
            assert forall|i: int, j: int|
                #![trigger u.messages[i], u.messages[j]]
                0 <= i < j < u.messages.len() implies {
                &&& u.messages[i].turn.id != u.messages[j].turn.id
                &&& u.messages[i].session_id == u.messages[j].session_id ==> u.messages[i].sequence
                    < u.messages[j].sequence
            } by {
                assert(of[i] < of[j]);
                assert(t.messages[of[i]].turn.id != t.messages[of[j]].turn.id);
            }
        },
        Change::AddMessage(session_id, turn) => {
            lemma_next_sequence(t.messages, session_id);
        },
        _ => {
            assert forall|i: int, j: int|
                #![trigger u.sessions[i], u.sessions[j]]
                0 <= i < j < u.sessions.len() implies u.sessions[i].id != u.sessions[j].id
                && u.sessions[i].name != u.sessions[j].name by {
                if i < t.sessions.len() && j < t.sessions.len() {
                    assert(t.sessions[i].id != t.sessions[j].id);
                }
            }
            assert forall|i: int, j: int|
                #![trigger u.messages[i], u.messages[j]]
                0 <= i < j < u.messages.len() implies {
                &&& u.messages[i].turn.id != u.messages[j].turn.id
                &&& u.messages[i].session_id == u.messages[j].session_id ==> u.messages[i].sequence
                    < u.messages[j].sequence
            } by {
                assert(t.messages[i].turn.id != t.messages[j].turn.id);
            }
        },
    }
}

/// A list of writes leaves the tables consistent.
pub proof fn writes_keep_the_tables_consistent(t: Tables, list: Seq<Change>)
    requires
        consistent(t),
        after_all(t, list) is Some,
    ensures
        consistent(after_all(t, list)->0),
    decreases list.len(),
{
    if list.len() > 0 {
        writes_keep_the_tables_consistent(t, list.drop_last());
        every_write_keeps_the_tables_consistent(after_all(t, list.drop_last())->0, list.last());
    }
}

} // verus!
