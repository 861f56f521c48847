//! What a save writes, message by message and column by column.

#[allow(unused_imports)]
use crate::chat::turn::typed;
#[allow(unused_imports)]
use crate::order::{lemma_rising_push, rising};
#[allow(unused_imports)]
use crate::repository::statement::{
    cells, optional_cell, small_cell, text_cell, Cell, Statement, Value,
};
#[allow(unused_imports)]
use crate::session::entity::{MessageEntity, SessionEntity};
#[allow(unused_imports)]
use crate::session::message_repository::{
    message_cells, COUNT_MESSAGES, FETCH_CONVERSATION_ROWS, FETCH_FIRST_USER_MESSAGE,
    FETCH_MESSAGES, FETCH_PENDING, MARK_DUPLICATE, SEARCH_MESSAGES,
};
#[allow(unused_imports)]
use crate::session::model::{Message, Role, Session};
#[allow(unused_imports)]
use crate::session::repair_service::RepairFailure;
#[allow(unused_imports)]
use crate::session::session_repository::{session_cells, FETCH_ALL_SESSIONS, FETCH_SESSION_BY_NAME};
#[allow(unused_imports)]
use crate::session::sessions_service::{
    additions, last_user, message_of, persist_changes, promotion, session_of, unsaved, used_ids,
    with_ids, write_ahead_changes, RenameError, SessionFailure,
};
#[allow(unused_imports)]
use crate::session::tables::{
    changes, optional_text, turn_of, turn_of_entity, Change, SessionRow, Write,
};
#[allow(unused_imports)]
use crate::text::{has_part, occurs_at, texts};
#[allow(unused_imports)]
use crate::time::{formatted, Timestamp};
use vstd::prelude::*;

verus! {

// ---------------------------------------------------------------------
// Which messages are written
// ---------------------------------------------------------------------

/// A message is unsaved when it has no id; those of two lists are added up.
pub proof fn messages_without_an_id_are_unsaved(a: Seq<Message>, b: Seq<Message>, m: Message)
    ensures
        unsaved(Seq::<Message>::empty()) == 0,
        unsaved(a + b) == unsaved(a) + unsaved(b),
        m.id@.len() == 0 ==> unsaved(seq![m]) == 1,
        m.id@.len() > 0 ==> unsaved(seq![m]) == 0,
    decreases b.len(),
{
    assert(seq![m].drop_last() =~= Seq::<Message>::empty());
    assert(unsaved(seq![m].drop_last()) == 0);
    assert(seq![m].last() == m);
    if b.len() == 0 {
        assert(a + b =~= a);
    } else {
        messages_without_an_id_are_unsaved(a, b.drop_last(), m);
        assert((a + b).drop_last() =~= a + b.drop_last());
        assert((a + b).last() == b.last());
    }
}

/// Each message keeps its place and all but its id: one that has an id keeps
/// that too, and the unsaved ones get the new ids in order, as far as these go.
pub proof fn ids_are_given_in_order(messages: Seq<Message>, ids: Seq<String>, i: int)
    requires
        0 <= i < messages.len(),
    ensures
        with_ids(messages, ids).len() == messages.len(),
        with_ids(messages, ids)[i].role == messages[i].role,
        with_ids(messages, ids)[i].content == messages[i].content,
        with_ids(messages, ids)[i].message_type == messages[i].message_type,
        with_ids(messages, ids)[i].compaction_metadata == messages[i].compaction_metadata,
        messages[i].id@.len() > 0 ==> with_ids(messages, ids)[i].id == messages[i].id,
        messages[i].id@.len() == 0 && unsaved(messages.take(i)) < ids.len() ==> with_ids(
            messages,
            ids,
        )[i].id == ids[unsaved(messages.take(i)) as int],
        messages[i].id@.len() == 0 && unsaved(messages.take(i)) >= ids.len() ==> with_ids(
            messages,
            ids,
        )[i].id == messages[i].id,
    decreases messages.len(),
{
    let before = messages.drop_last();
    if i < before.len() {
        ids_are_given_in_order(before, ids, i);
        assert(before.take(i) =~= messages.take(i));
    } else {
        if before.len() > 0 {
            ids_are_given_in_order(before, ids, 0);
        }
        assert(messages.take(i) =~= before);
    }
}

proof fn lemma_addition_positions(
    messages: Seq<Message>,
    session_id: Seq<char>,
    ids: Seq<String>,
) -> (at: Seq<int>)
    ensures
        rising(at, messages.len() as int),
        at.len() == unsaved(messages),
        additions(messages, session_id, ids).len() == at.len(),
        forall|k: int|
            0 <= k < at.len() ==> (#[trigger] additions(messages, session_id, ids)[k]
                matches Change::AddMessage(s, turn) && s == session_id && turn.id == ids[k]@
                && turn.role == messages[at[k]].role.name() && turn.content
                == messages[at[k]].content@ && turn.kind == messages[at[k]].message_type@
                && turn.metadata == optional_text(messages[at[k]].compaction_metadata)),
        forall|i: int| #[trigger]
            at.contains(i) <==> 0 <= i < messages.len() && messages[i].id@.len() == 0,
    decreases messages.len(),
{
    if messages.len() == 0 {
        Seq::empty()
    } else {
        let before = messages.drop_last();
        let last = messages.len() - 1;
        let rest = lemma_addition_positions(before, session_id, ids);
        lemma_rising_push(rest, last);
        let at = if messages[last].id@.len() == 0 {
            rest.push(last)
        } else {
            rest
        };
        let all = additions(messages, session_id, ids);
        assert forall|k: int| 0 <= k < at.len() implies (#[trigger] all[k] matches Change::AddMessage(
            s,
            turn,
        ) && s == session_id && turn.id == ids[k]@ && turn.role == messages[at[k]].role.name()
            && turn.content == messages[at[k]].content@ && turn.kind
            == messages[at[k]].message_type@ && turn.metadata == optional_text(
            messages[at[k]].compaction_metadata,
        )) by {
            if k < rest.len() {
                assert(all[k] == additions(before, session_id, ids)[k]);
                assert(0 <= rest[k] < before.len());
                assert(before[rest[k]] == messages[rest[k]]);
            }
        }
        assert forall|i: int| #[trigger] at.contains(i) <==> 0 <= i < messages.len()
            && messages[i].id@.len() == 0 by {
            assert(rest.contains(i) <==> 0 <= i < before.len() && before[i].id@.len() == 0);
            assert(rest.push(last).contains(i) <==> i == last || rest.contains(i));
        }
        at
    }
}

/// Saving writes each message that has no id, once, in order, with the next of
/// the new ids, and all that the message says; it writes no other.
pub proof fn exactly_the_unsaved_messages_are_written(
    messages: Seq<Message>,
    session_id: Seq<char>,
    ids: Seq<String>,
)
    ensures
        exists|at: Seq<int>| #[trigger]
            rising(at, messages.len() as int) && additions(messages, session_id, ids).len()
                == at.len() && (forall|k: int|
                0 <= k < at.len() ==> (#[trigger] additions(messages, session_id, ids)[k]
                    matches Change::AddMessage(s, turn) && s == session_id && turn.id == ids[k]@
                    && turn.role == messages[at[k]].role.name() && turn.content
                    == messages[at[k]].content@ && turn.kind == messages[at[k]].message_type@
                    && turn.metadata == optional_text(messages[at[k]].compaction_metadata))) && (
            forall|i: int| #[trigger]
                at.contains(i) <==> 0 <= i < messages.len() && messages[i].id@.len() == 0),
{
    let at = lemma_addition_positions(messages, session_id, ids);
    assert(rising(at, messages.len() as int));
}

/// The latest prompt is the last message of the user, whatever stands behind
/// it.
pub proof fn the_latest_prompt_is_the_last_of_the_user(messages: Seq<Message>)
    ensures
        match last_user(messages) {
            Some(m) => exists|i: int|
                0 <= i < messages.len() && #[trigger] messages[i] == m && m.role == Role::User
                    && forall|j: int|
                    i < j < messages.len() ==> (#[trigger] messages[j]).role != Role::User,
            None => forall|j: int|
                0 <= j < messages.len() ==> (#[trigger] messages[j]).role != Role::User,
        },
    decreases messages.len(),
{
    if messages.len() > 0 {
        let before = messages.drop_last();
        let last = messages.len() - 1;
        if messages[last].role == Role::User {
            assert(messages[last] == last_user(messages)->0);
        } else {
            the_latest_prompt_is_the_last_of_the_user(before);
            match last_user(before) {
                Some(m) => {
                    let i = choose|i: int|
                        0 <= i < before.len() && #[trigger] before[i] == m && m.role == Role::User
                            && forall|j: int|
                            i < j < before.len() ==> (#[trigger] before[j]).role != Role::User;
                    assert(messages[i] == m);
                    assert forall|j: int| i < j < messages.len() implies (
                    #[trigger] messages[j]).role != Role::User by {
                        if j < last {
                            assert(before[j] == messages[j]);
                        }
                    }
                },
                None => {
                    assert forall|j: int| 0 <= j < messages.len() implies (
                    #[trigger] messages[j]).role != Role::User by {
                        if j < last {
                            assert(before[j] == messages[j]);
                        }
                    }
                },
            }
        }
    }
}

/// Only the latest prompt is made a part of the conversation, and only when it
/// is stored.
pub proof fn only_the_latest_prompt_is_promoted(messages: Seq<Message>, i: int)
    ensures
        (forall|j: int| 0 <= j < messages.len() ==> (#[trigger] messages[j]).role != Role::User)
            ==> promotion(messages).len() == 0,
        0 <= i < messages.len() && messages[i].role == Role::User && (forall|j: int|
            i < j < messages.len() ==> (#[trigger] messages[j]).role != Role::User) ==> {
            &&& messages[i].id@.len() > 0 ==> promotion(messages) == seq![
                Change::PromoteMessage(messages[i].id@),
            ]
            &&& messages[i].id@.len() == 0 ==> promotion(messages).len() == 0
        },
{
    the_latest_prompt_is_the_last_of_the_user(messages);
    if let Some(m) = last_user(messages) {
        let k = choose|k: int|
            0 <= k < messages.len() && #[trigger] messages[k] == m && m.role == Role::User
                && forall|j: int|
                k < j < messages.len() ==> (#[trigger] messages[j]).role != Role::User;
        if 0 <= i < messages.len() && messages[i].role == Role::User && forall|j: int|
            i < j < messages.len() ==> (#[trigger] messages[j]).role != Role::User {
            if k < i {
                assert(messages[i].role != Role::User);
            } else if i < k {
                assert(messages[k].role != Role::User);
            }
        }
    }
}

/// A save writes the row of the session first, as it is in use now, then the
/// unsaved messages, and last that the latest prompt was answered.
pub proof fn a_save_writes_the_session_and_then_its_messages(
    session: Session,
    now: Timestamp,
    ids: Seq<String>,
)
    requires
        !session.temporary,
    ensures
        persist_changes(session, now, ids).len() == 1 + unsaved(session.messages@) + promotion(
            with_ids(session.messages@, ids),
        ).len(),
        persist_changes(session, now, ids)[0] matches Change::UpsertSession(row) && row.id
            == session.id@ && row.name == session.name@ && row.last_used_at == now && row.current
            == session.current,
        persist_changes(session, now, ids).subrange(1, 1 + unsaved(session.messages@) as int)
            == additions(session.messages@, session.id@, ids),
        persist_changes(session, now, ids).skip(1 + unsaved(session.messages@) as int) == promotion(
            with_ids(session.messages@, ids),
        ),
{
    let at = lemma_addition_positions(session.messages@, session.id@, ids);
    let list = persist_changes(session, now, ids);
    let n = unsaved(session.messages@) as int;
    assert(list.subrange(1, 1 + n) =~= additions(session.messages@, session.id@, ids));
    assert(list.skip(1 + n) =~= promotion(with_ids(session.messages@, ids)));
}

/// After so many writes of a save as many ids are in use as messages were
/// written: the first write is that of the session, and the last may be none
/// of a message.
pub proof fn the_ids_in_use_are_those_written(session: Session, ids: Seq<String>, done: int)
    requires
        0 <= done,
        unsaved(session.messages@) <= ids.len(),
    ensures
        done == 0 ==> used_ids(session, ids, done).len() == 0,
        0 < done <= unsaved(session.messages@) ==> used_ids(session, ids, done).len() == done - 1,
        done > unsaved(session.messages@) ==> used_ids(session, ids, done).len() == unsaved(
            session.messages@,
        ),
        forall|k: int|
            0 <= k < used_ids(session, ids, done).len() ==> #[trigger] used_ids(
                session,
                ids,
                done,
            )[k] == ids[k],
{
}

/// A prompt is stored before it is answered exactly when it is new, the
/// user's, and the last of a conversation that is kept. It is stored whole, as
/// one that waits; the row of the session is written first.
pub proof fn a_new_prompt_is_written_ahead(session: Session, now: Timestamp, id: Seq<char>)
    ensures
        session.temporary ==> write_ahead_changes(session, now, id).len() == 0,
        !session.temporary ==> (write_ahead_changes(session, now, id)[0]
            matches Change::UpsertSession(row) && row.id == session.id@ && row.name
            == session.name@ && row.last_used_at == now && row.current == session.current),
        ({
            let messages = session.messages@;
            let n = messages.len() as int;
            let list = write_ahead_changes(session, now, id);
            if !session.temporary && n > 0 && messages[n - 1].id@.len() == 0 && messages[n - 1].role
                == Role::User {
                &&& list.len() == 2
                &&& list[1] matches Change::AddMessage(s, turn) && s == session.id@ && turn.id == id
                    && turn.role == "user"@ && turn.content == messages[n - 1].content@
                    && turn.kind == "pending"@ && turn.metadata == optional_text(
                    messages[n - 1].compaction_metadata,
                )
            } else {
                list.len() <= 1
            }
        }),
{
}

// ---------------------------------------------------------------------
// What is read back
// ---------------------------------------------------------------------

/// A session that was opened is that of its row, with no messages yet, and is
/// one that is kept.
pub proof fn an_opened_session_is_that_of_its_row(session: Session, row: SessionEntity)
    requires
        session_of(session, row),
    ensures
        session.id@ == row.id@,
        session.name@ == row.name@,
        session.last_used_at == row.last_used_at,
        session.current <==> row.current != 0,
        !session.temporary,
        session.messages@.len() == 0,
{
}

/// A message that was read says what its row says, and is from whom the row
/// says.
pub proof fn a_message_says_what_its_row_says(m: Message, row: MessageEntity)
    requires
        message_of(m, row),
    ensures
        m.id@ == row.id@,
        m.content@ == row.content@,
        m.message_type@ == row.message_type@,
        optional_text(m.compaction_metadata) == optional_text(row.compaction_metadata),
        m.role == Role::User <==> row.role@ == "user"@,
        m.role == Role::Assistant <==> row.role@ == "assistant"@,
        m.role matches Role::Other(name) ==> name@ == row.role@,
{
    assert(turn_of(m).content == turn_of_entity(row).content);
    assert(turn_of(m).id == turn_of_entity(row).id);
    assert(turn_of(m).role == turn_of_entity(row).role);
    assert(turn_of(m).kind == turn_of_entity(row).kind);
    assert(turn_of(m).metadata == turn_of_entity(row).metadata);
}

/// A message that was typed is the user's, unsaved and ordinary, stands behind
/// the others, and changes nothing else of the session.
pub proof fn a_typed_message_stands_behind_the_others(
    before: Session,
    after: Session,
    message: Seq<char>,
    i: int,
)
    requires
        typed(before, after, message),
    ensures
        after.messages@.len() == before.messages@.len() + 1,
        0 <= i < before.messages@.len() ==> after.messages@[i] == before.messages@[i],
        after.messages@.last().id@.len() == 0,
        after.messages@.last().content@ == message,
        after.messages@.last().role == Role::User,
        after.messages@.last().message_type@ == "standard"@,
        after.messages@.last().compaction_metadata is None,
        after.id == before.id && after.name == before.name,
        after.current == before.current && after.temporary == before.temporary,
        after.last_used_at == before.last_used_at,
{
    if 0 <= i < before.messages@.len() {
        assert(after.messages@.drop_last()[i] == before.messages@[i]);
    }
}

/// A column reads as a text exactly when it holds one, and as a number exactly
/// when it holds one of thirty-two bits.
pub proof fn a_column_reads_as_what_it_holds(row: Seq<Cell>, i: int)
    ensures
        text_cell(row, i) is Some <==> 0 <= i < row.len() && row[i] is Text,
        text_cell(row, i) matches Some(s) ==> row[i] == Cell::Text(s),
        small_cell(row, i) is Some <==> 0 <= i < row.len() && (row[i] matches Cell::Integer(n)
            && -2147483648 <= n <= 2147483647),
        small_cell(row, i) matches Some(n) ==> row[i] == Cell::Integer(n),
{
}

/// A text that may be missing is written as itself, or as nothing.
pub proof fn a_missing_text_is_written_as_nothing(s: String)
    ensures
        optional_cell(Some(s)) == Cell::Text(s@),
        optional_cell(None) is Null,
        optional_text(Some(s)) == Some(s@),
        optional_text(None) is None,
{
}

// ---------------------------------------------------------------------
// Statements
// ---------------------------------------------------------------------

/// A session is written with its id, its name, the time a day after its last
/// use, whether it is current, and the time of its last use, in this order.
pub proof fn a_session_is_written_column_by_column(
    id: Seq<char>,
    name: Seq<char>,
    last_used_at: Timestamp,
    current: bool,
)
    ensures
        session_cells(id, name, last_used_at, current).len() == 5,
        session_cells(id, name, last_used_at, current)[0] == Cell::Text(id),
        session_cells(id, name, last_used_at, current)[1] == Cell::Text(name),
        session_cells(id, name, last_used_at, current)[2] == Cell::Text(
            formatted(
                (last_used_at.seconds + 24 * 60 * 60) as i64,
                (last_used_at.nanos % 1_000_000_000) as u32,
                "%Y-%m-%d %H:%M:%S"@,
            ),
        ),
        session_cells(id, name, last_used_at, current)[3] == Cell::Integer(
            if current {
                1
            } else {
                0
            },
        ),
        session_cells(id, name, last_used_at, current)[4] == Cell::Text(
            formatted(last_used_at.seconds, last_used_at.nanos, "%Y-%m-%d %H:%M:%S"@),
        ),
{
}

/// A message is written with its id, its session, its role, its text, its kind
/// and its metadata, in this order.
pub proof fn a_message_is_written_column_by_column(m: MessageEntity)
    ensures
        message_cells(m).len() == 6,
        message_cells(m)[0] == Cell::Text(m.id@),
        message_cells(m)[1] == Cell::Text(m.session_id@),
        message_cells(m)[2] == Cell::Text(m.role@),
        message_cells(m)[3] == Cell::Text(m.content@),
        message_cells(m)[4] == Cell::Text(m.message_type@),
        m.compaction_metadata matches Some(s) ==> message_cells(m)[5] == Cell::Text(s@),
        m.compaction_metadata is None ==> message_cells(m)[5] is Null,
{
}

/// Deleting a session deletes its messages first and then its row; both name
/// it.
pub proof fn a_deletion_takes_the_messages_first(id: String, statements: Seq<Statement>)
    requires
        (Write::DeleteSession { id }).consists_of(statements),
    ensures
        statements.len() == 2,
        statements[0].sql@ == "DELETE FROM messages WHERE session_id = ?1"@,
        statements[0].params@.len() == 1,
        statements[0].params@[0]@ == Cell::Text(id@),
        statements[1].sql@ == "DELETE FROM sessions WHERE id = ?1"@,
        statements[1].params@.len() == 1,
        statements[1].params@[0]@ == Cell::Text(id@),
{
    assert(cells(statements[0].params@).len() == 1);
    assert(cells(statements[0].params@)[0] == Cell::Text(id@));
    assert(cells(statements[1].params@).len() == 1);
    assert(cells(statements[1].params@)[0] == Cell::Text(id@));
}

/// A prompt is promoted by its id, and only while it waits; those that wait
/// are discarded by their session.
pub proof fn only_what_waits_is_promoted_or_discarded(
    id: String,
    promoting: Seq<Statement>,
    discarding: Seq<Statement>,
)
    requires
        (Write::PromoteMessage { id }).consists_of(promoting),
        (Write::DiscardPending { session_id: id }).consists_of(discarding),
    ensures
        promoting.len() == 1,
        promoting[0].sql@
            == "UPDATE messages SET message_type = 'standard' WHERE id = ?1 AND message_type = ?2"@,
        cells(promoting[0].params@) == seq![Cell::Text(id@), Cell::Text("pending"@)],
        discarding.len() == 1,
        discarding[0].sql@ == "DELETE FROM messages WHERE session_id = ?1 AND message_type = ?2"@,
        cells(discarding[0].params@) == seq![Cell::Text(id@), Cell::Text("pending"@)],
{
}

/// Marking takes one statement for each id, which sets the kind of that
/// message and nothing else; restoring takes one for all that were marked.
pub proof fn marking_takes_a_statement_for_each_id(
    ids: Vec<String>,
    marking: Seq<Statement>,
    restoring: Seq<Statement>,
    i: int,
)
    requires
        (Write::MarkDuplicates { ids }).consists_of(marking),
        Write::RestoreDuplicates.consists_of(restoring),
        0 <= i < ids@.len(),
    ensures
        marking.len() == ids@.len(),
        marking[i].sql@ == "UPDATE messages SET message_type = ?1 WHERE id = ?2"@,
        cells(marking[i].params@) == seq![Cell::Text("duplicate"@), Cell::Text(ids@[i]@)],
        restoring.len() == 1,
        restoring[0].sql@
            == "UPDATE messages SET message_type = 'standard' WHERE message_type = ?1"@,
        cells(restoring[0].params@) == seq![Cell::Text("duplicate"@)],
{
    assert(marking[i].is(
        MARK_DUPLICATE@,
        seq![
            Cell::Text(crate::session::message_repository::DUPLICATE@),
            Cell::Text(ids@[i]@),
        ],
    ));
}

/// Opening a new session takes the mark of the current one from all others.
pub proof fn the_mark_of_the_current_session_is_taken_from_all(statements: Seq<Statement>)
    requires
        Write::RemoveCurrentFromAll.consists_of(statements),
    ensures
        statements.len() == 1,
        statements[0].sql@ == "UPDATE sessions SET current = 0"@,
        statements[0].params@.len() == 0,
{
    assert(cells(statements[0].params@).len() == 0);
}

/// A session is added or updated, and a message added, by one statement on
/// what it holds.
pub proof fn a_row_is_written_by_one_statement(
    id: String,
    name: String,
    last_used_at: Timestamp,
    current: bool,
    message: MessageEntity,
    adding: Seq<Statement>,
    updating: Seq<Statement>,
    saying: Seq<Statement>,
)
    requires
        (Write::AddSession { id, name, last_used_at, current }).consists_of(adding),
        (Write::UpsertSession { id, name, last_used_at, current }).consists_of(updating),
        (Write::AddMessage { message }).consists_of(saying),
    ensures
        adding.len() == 1,
        adding[0].sql@
            == "INSERT INTO sessions (id, name, expires_at, current, last_used_at) VALUES (?1, ?2, ?3, ?4, ?5)"@,
        cells(adding[0].params@) == session_cells(id@, name@, last_used_at, current),
        updating.len() == 1,
        updating[0].sql@
            == "INSERT INTO sessions (id, name, expires_at, current, last_used_at) VALUES (?1, ?2, ?3, ?4, ?5) ON CONFLICT(id) DO UPDATE SET name = excluded.name, expires_at = excluded.expires_at, current = excluded.current, last_used_at = excluded.last_used_at"@,
        cells(updating[0].params@) == session_cells(id@, name@, last_used_at, current),
        saying.len() == 1,
        saying[0].sql@
            == "INSERT INTO messages (id, session_id, role, content, message_type, compaction_metadata, sequence) VALUES (?1, ?2, ?3, ?4, ?5, ?6, (SELECT COALESCE(MAX(sequence), 0) + 1 FROM messages WHERE session_id = ?2))"@,
        cells(saying[0].params@) == message_cells(message),
{
}

// ---------------------------------------------------------------------
// Failures
// ---------------------------------------------------------------------

/// A failure ends in the words of the store, and names the session that it
/// concerns.
pub proof fn a_failure_ends_in_the_words_of_the_store(failure: SessionFailure, cause: Seq<char>)
    ensures
        failure.words(cause).len() > cause.len(),
        failure.words(cause).skip(failure.words(cause).len() - cause.len()) == cause,
        failure matches SessionFailure::Creating(name) ==> has_part(failure.words(cause), name@),
        failure matches SessionFailure::ReadingBack(name) ==> has_part(failure.words(cause), name@),
        failure matches SessionFailure::Saving(name) ==> has_part(failure.words(cause), name@),
{
    reveal_strlit("Failed to fetch sessions: ");
    reveal_strlit("could not clear the current session: ");
    reveal_strlit("could not create session '");
    reveal_strlit("could not read back session '");
    reveal_strlit("could not save session '");
    reveal_strlit("could not save message: ");
    reveal_strlit("could not save your message: ");
    reveal_strlit("could not finalise your message: ");
    reveal_strlit("could not rename session: ");
    reveal_strlit("could not read back the session: ");
    reveal_strlit("could not search messages: ");
    let words = failure.words(cause);
    assert(words.skip(words.len() - cause.len()) =~= cause);
    match failure {
        SessionFailure::Creating(name) => {
            lemma_named("could not create session '"@, name@, "': "@ + cause);
            assert("could not create session '"@ + name@ + ("': "@ + cause) =~= words);
        },
        SessionFailure::ReadingBack(name) => {
            lemma_named("could not read back session '"@, name@, "': "@ + cause);
            assert("could not read back session '"@ + name@ + ("': "@ + cause) =~= words);
        },
        SessionFailure::Saving(name) => {
            lemma_named("could not save session '"@, name@, "': "@ + cause);
            assert("could not save session '"@ + name@ + ("': "@ + cause) =~= words);
        },
        _ => {},
    }
}

proof fn lemma_named(a: Seq<char>, name: Seq<char>, b: Seq<char>)
    ensures
        has_part(a + name + b, name),
{
    let whole = a + name + b;
    assert(whole.subrange(a.len() as int, a.len() as int + name.len()) =~= name);
    assert(occurs_at(whole, name, a.len() as int));
}

/// The same of a repair that failed.
pub proof fn a_failed_repair_ends_in_the_words_of_the_store(
    failure: RepairFailure,
    cause: Seq<char>,
)
    ensures
        failure.words(cause).len() > cause.len(),
        failure.words(cause).skip(failure.words(cause).len() - cause.len()) == cause,
        failure matches RepairFailure::Reading(name) ==> has_part(failure.words(cause), name@),
        failure matches RepairFailure::Marking(name) ==> has_part(failure.words(cause), name@),
{
    reveal_strlit("could not restore messages: ");
    reveal_strlit("could not list sessions: ");
    reveal_strlit("could not read session '");
    reveal_strlit("could not repair '");
    let words = failure.words(cause);
    assert(words.skip(words.len() - cause.len()) =~= cause);
    match failure {
        RepairFailure::Reading(name) => {
            lemma_named("could not read session '"@, name@, "': "@ + cause);
            assert("could not read session '"@ + name@ + ("': "@ + cause) =~= words);
        },
        RepairFailure::Marking(name) => {
            lemma_named("could not repair '"@, name@, "': "@ + cause);
            assert("could not repair '"@ + name@ + ("': "@ + cause) =~= words);
        },
        _ => {},
    }
}

/// A refused rename names the name that is taken.
pub proof fn a_refused_rename_names_the_name(name: String)
    ensures
        has_part(RenameError::Taken(name).words(), name@),
        RenameError::Empty.words() == "a session name cannot be empty"@,
{
    lemma_named("a different session is already called '"@, name@, "' — pick another name"@);
}

// ---------------------------------------------------------------------
// Writes and what they hold
// ---------------------------------------------------------------------

/// A write is seen as what it holds, at its place.
pub proof fn a_write_is_seen_as_it_is(writes: Seq<Write>, i: int)
    requires
        0 <= i < writes.len(),
    ensures
        changes(writes).len() == writes.len(),
        writes[i] matches Write::AddSession { id, name, last_used_at, current } ==> changes(
            writes,
        )[i] == Change::AddSession(SessionRow { id: id@, name: name@, last_used_at, current }),
        writes[i] matches Write::UpsertSession { id, name, last_used_at, current } ==> changes(
            writes,
        )[i] == Change::UpsertSession(SessionRow { id: id@, name: name@, last_used_at, current }),
        writes[i] matches Write::RemoveCurrentFromAll ==> changes(writes)[i]
            is RemoveCurrentFromAll,
        writes[i] matches Write::DeleteSession { id } ==> changes(writes)[i]
            == Change::DeleteSession(id@),
        writes[i] matches Write::AddMessage { message } ==> (changes(writes)[i]
            matches Change::AddMessage(s, turn) && s == message.session_id@ && turn.id
            == message.id@ && turn.role == message.role@ && turn.content == message.content@
            && turn.kind == message.message_type@ && turn.metadata == optional_text(
            message.compaction_metadata,
        )),
        writes[i] matches Write::PromoteMessage { id } ==> changes(writes)[i]
            == Change::PromoteMessage(id@),
        writes[i] matches Write::DiscardPending { session_id } ==> changes(writes)[i]
            == Change::DiscardPending(session_id@),
        writes[i] matches Write::MarkDuplicates { ids } ==> changes(writes)[i]
            == Change::MarkDuplicates(texts(ids@)),
        writes[i] matches Write::RestoreDuplicates ==> changes(writes)[i] is RestoreDuplicates,
{
}

/// A value is seen as what it holds, and a statement as its text and its
/// values.
pub proof fn a_statement_is_seen_as_it_is(
    s: Statement,
    sql: Seq<char>,
    params: Seq<Cell>,
    i: int,
)
    requires
        s.is(sql, params),
    ensures
        s.sql@ == sql,
        s.params@.len() == params.len(),
        0 <= i < params.len() ==> match s.params@[i] {
            Value::Text(t) => params[i] == Cell::Text(t@),
            Value::Integer(n) => params[i] == Cell::Integer(n as int),
            Value::Null => params[i] is Null,
            Value::Other => params[i] is Other,
        },
{
    assert(cells(s.params@).len() == s.params@.len());
    if 0 <= i < params.len() {
        assert(cells(s.params@)[i] == s.params@[i]@);
    }
}

/// What is read of a conversation is read in the order of its numbers, and
/// leaves out the prompts that wait and the rows that were set aside; what
/// waits is read by itself, and a repair sees all but that. A search shows the
/// most recently used sessions first.
pub proof fn each_read_has_its_statement()
    ensures
        FETCH_MESSAGES@
            == "SELECT id, session_id, role, content, message_type, compaction_metadata FROM messages WHERE session_id = ?1 AND message_type NOT IN (?2, ?3) ORDER BY sequence, rowid"@,
        COUNT_MESSAGES@
            == "SELECT COUNT(*) FROM messages WHERE session_id = ?1 AND message_type NOT IN (?2, ?3)"@,
        FETCH_FIRST_USER_MESSAGE@
            == "SELECT content FROM messages WHERE session_id = ?1 AND role = 'user' AND message_type NOT IN (?2, ?3) ORDER BY sequence, rowid LIMIT 1"@,
        FETCH_PENDING@
            == "SELECT content FROM messages WHERE session_id = ?1 AND message_type = ?2 ORDER BY sequence, rowid"@,
        FETCH_CONVERSATION_ROWS@
            == "SELECT id, role, content, message_type FROM messages WHERE session_id = ?1 AND message_type != ?2 ORDER BY sequence, rowid"@,
        SEARCH_MESSAGES@
            == "SELECT s.name, m.role, m.content FROM messages m JOIN sessions s ON s.id = m.session_id WHERE m.content LIKE ?1 ESCAPE '\\' AND m.message_type NOT IN (?2, ?3) ORDER BY s.last_used_at DESC, m.sequence LIMIT ?4"@,
        FETCH_ALL_SESSIONS@
            == "SELECT id, name, expires_at, current, COALESCE(last_used_at, datetime(expires_at, '-24 hours')) FROM sessions"@,
        FETCH_SESSION_BY_NAME@
            == "SELECT id, name, expires_at, current, COALESCE(last_used_at, datetime(expires_at, '-24 hours')) FROM sessions WHERE name = ?1"@,
{
}

} // verus!
