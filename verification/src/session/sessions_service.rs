//! What is written and read when conversations are opened, saved, renamed and
//! resumed.
//!
//! Each operation is split in two: a plan of writes, and what becomes of the
//! session once the writes have been made. Identifiers and the time are
//! handed in.

use crate::order::order_positions;
#[allow(unused_imports)]
use crate::order::{each_once, in_order, stable_order, stable_order_is_stable};
use crate::session::entity::{MessageEntity, SessionEntity};
#[allow(unused_imports)]
use crate::session::message_repository::PENDING;
use crate::session::model::{Message, Session};
use crate::session::tables::Write;
#[allow(unused_imports)]
use crate::session::tables::{changes, turn_of, turn_of_entity, Change, SessionRow, Turn};
use crate::text::{concat, same, trim};
#[allow(unused_imports)]
use crate::text::trimmed;
use crate::time::Timestamp;
use vstd::prelude::*;

verus! {

// ---------------------------------------------------------------------
// Failures
// ---------------------------------------------------------------------

/// What was being done when the store failed.
#[derive(Debug)]
pub enum SessionFailure {
    Fetching,
    ClearingCurrent,
    Creating(String),
    ReadingBack(String),
    Saving(String),
    SavingMessage,
    SavingPrompt,
    Finalising,
    Renaming,
    Counting,
    Searching,
}

impl SessionFailure {
    /// The failure in words, with the store's own words at the end.
    pub open spec fn words(self, cause: Seq<char>) -> Seq<char> {
        match self {
            SessionFailure::Fetching => "Failed to fetch sessions: "@ + cause,
            SessionFailure::ClearingCurrent => "could not clear the current session: "@ + cause,
            SessionFailure::Creating(name) => "could not create session '"@ + name@ + "': "@
                + cause,
            SessionFailure::ReadingBack(name) => "could not read back session '"@ + name@ + "': "@
                + cause,
            SessionFailure::Saving(name) => "could not save session '"@ + name@ + "': "@ + cause,
            SessionFailure::SavingMessage => "could not save message: "@ + cause,
            SessionFailure::SavingPrompt => "could not save your message: "@ + cause,
            SessionFailure::Finalising => "could not finalise your message: "@ + cause,
            SessionFailure::Renaming => "could not rename session: "@ + cause,
            SessionFailure::Counting => "could not read back the session: "@ + cause,
            SessionFailure::Searching => "could not search messages: "@ + cause,
        }
    }

    pub fn message(&self, cause: &str) -> (r: String)
        ensures
            r@ == self.words(cause@),
    {
        match self {
            SessionFailure::Fetching => concat("Failed to fetch sessions: ", cause),
            SessionFailure::ClearingCurrent => concat("could not clear the current session: ", cause),
            SessionFailure::Creating(name) => {
                let start = concat("could not create session '", name.as_str());
                concat(concat(start.as_str(), "': ").as_str(), cause)
            },
            SessionFailure::ReadingBack(name) => {
                let start = concat("could not read back session '", name.as_str());
                concat(concat(start.as_str(), "': ").as_str(), cause)
            },
            SessionFailure::Saving(name) => {
                let start = concat("could not save session '", name.as_str());
                concat(concat(start.as_str(), "': ").as_str(), cause)
            },
            SessionFailure::SavingMessage => concat("could not save message: ", cause),
            SessionFailure::SavingPrompt => concat("could not save your message: ", cause),
            SessionFailure::Finalising => concat("could not finalise your message: ", cause),
            SessionFailure::Renaming => concat("could not rename session: ", cause),
            SessionFailure::Counting => concat("could not read back the session: ", cause),
            SessionFailure::Searching => concat("could not search messages: ", cause),
        }
    }
}

/// Every write of the plan can be turned into statements.
pub open spec fn all_storable(plan: Seq<Write>) -> bool {
    forall|i: int| 0 <= i < plan.len() ==> (#[trigger] plan[i]).storable()
}

/// The row of a session that is in use at a moment.
pub open spec fn session_row(session: Session, name: Seq<char>, now: Timestamp) -> SessionRow {
    SessionRow { id: session.id@, name, last_used_at: now, current: session.current }
}

fn upsert(session: &Session, name: &str, now: Timestamp) -> (r: Write)
    ensures
        r@ == Change::UpsertSession(session_row(*session, name@, now)),
        now.storable() ==> r.storable(),
{
    Write::UpsertSession {
        id: session.id.clone(),
        name: name.to_owned(),
        last_used_at: now,
        current: session.current,
    }
}

// ---------------------------------------------------------------------
// Saving
// ---------------------------------------------------------------------

/// How many of the messages have not been stored.
pub open spec fn unsaved(messages: Seq<Message>) -> nat
    decreases messages.len(),
{
    if messages.len() == 0 {
        0
    } else {
        unsaved(messages.drop_last()) + if messages.last().stored() {
            0nat
        } else {
            1
        }
    }
}

/// The messages once the first `ids.len()` unsaved ones have these ids.
pub open spec fn with_ids(messages: Seq<Message>, ids: Seq<String>) -> Seq<Message>
    decreases messages.len(),
{
    if messages.len() == 0 {
        Seq::empty()
    } else {
        let last = messages.last();
        let k = unsaved(messages.drop_last()) as int;
        with_ids(messages.drop_last(), ids).push(
            if !last.stored() && k < ids.len() {
                Message { id: ids[k], ..last }
            } else {
                last
            },
        )
    }
}

/// The writes that store the unsaved messages, in order.
pub open spec fn additions(
    messages: Seq<Message>,
    session_id: Seq<char>,
    ids: Seq<String>,
) -> Seq<Change>
    decreases messages.len(),
{
    if messages.len() == 0 {
        Seq::empty()
    } else {
        let rest = additions(messages.drop_last(), session_id, ids);
        if messages.last().stored() {
            rest
        } else {
            rest.push(
                Change::AddMessage(
                    session_id,
                    turn_of(
                        Message {
                            id: ids[unsaved(messages.drop_last()) as int],
                            ..messages.last()
                        },
                    ),
                ),
            )
        }
    }
}

/// The last message that is from the user.
pub open spec fn last_user(messages: Seq<Message>) -> Option<Message>
    decreases messages.len(),
{
    if messages.len() == 0 {
        None
    } else if messages.last().role is User {
        Some(messages.last())
    } else {
        last_user(messages.drop_last())
    }
}

/// The write that makes the latest prompt a part of the conversation.
pub open spec fn promotion(messages: Seq<Message>) -> Seq<Change> {
    match last_user(messages) {
        Some(m) => if m.stored() {
            seq![Change::PromoteMessage(m.id@)]
        } else {
            Seq::empty()
        },
        None => Seq::empty(),
    }
}

/// Everything that saving a session writes, in order.
pub open spec fn persist_changes(session: Session, now: Timestamp, ids: Seq<String>) -> Seq<
    Change,
> {
    if session.temporary {
        Seq::empty()
    } else {
        seq![Change::UpsertSession(session_row(session, session.name@, now))] + additions(
            session.messages@,
            session.id@,
            ids,
        ) + promotion(with_ids(session.messages@, ids))
    }
}

/// How many identifiers saving the session takes.
pub fn unsaved_messages(session: &Session) -> (n: usize)
    ensures
        n == unsaved(session.messages@),
{
    let mut n: usize = 0;
    for i in 0..session.messages.len()
        invariant
            n == unsaved(session.messages@.take(i as int)),
            n <= i,
    {
        assert(session.messages@.take(i + 1).drop_last() =~= session.messages@.take(i as int));
        if session.messages[i].id.as_str().is_empty() {
            n += 1;
        }
    }
    assert(session.messages@.take(session.messages@.len() as int) =~= session.messages@);
    n
}

/// The id of the latest prompt once the unsaved messages have their ids.
fn prompt_id(messages: &Vec<Message>, ids: &Vec<String>) -> (r: Option<String>)
    requires
        ids@.len() >= unsaved(messages@),
    ensures
        match r {
            Some(id) => promotion(with_ids(messages@, ids@)) == seq![Change::PromoteMessage(id@)],
            None => promotion(with_ids(messages@, ids@)) == Seq::<Change>::empty(),
        },
{
    let mut next: usize = 0;
    let mut latest: Option<String> = None;
    let ghost all = messages@;
    for i in 0..messages.len()
        invariant
            all == messages@,
            ids@.len() >= unsaved(all),
            next == unsaved(all.take(i as int)),
            match latest {
                Some(id) => last_user(with_ids(all.take(i as int), ids@)) matches Some(m) && m.id
                    == id,
                None => last_user(with_ids(all.take(i as int), ids@)) is None,
            },
    {
        let ghost before = all.take(i as int);
        let ghost after = all.take(i + 1);
        proof {
            assert(after.drop_last() =~= before);
            assert(with_ids(after, ids@).drop_last() =~= with_ids(before, ids@));
            lemma_unsaved_prefix(all, i + 1);
        }
        let fresh = messages[i].id.as_str().is_empty();
        if messages[i].role.is_user() {
            latest = Some(
                if fresh {
                    ids[next].clone()
                } else {
                    messages[i].id.clone()
                },
            );
        }
        if fresh {
            next += 1;
        }
    }
    assert(all.take(all.len() as int) =~= all);
    match latest {
        Some(id) => if id.as_str().is_empty() {
            None
        } else {
            Some(id)
        },
        None => None,
    }
}

proof fn lemma_unsaved_prefix(messages: Seq<Message>, n: int)
    requires
        0 <= n <= messages.len(),
    ensures
        unsaved(messages.take(n)) <= unsaved(messages),
        unsaved(messages) <= messages.len(),
    decreases messages.len(),
{
    if n < messages.len() {
        lemma_unsaved_prefix(messages.drop_last(), n);
        assert(messages.drop_last().take(n) =~= messages.take(n));
    } else {
        assert(messages.take(n) =~= messages);
        if messages.len() > 0 {
            lemma_unsaved_prefix(messages.drop_last(), n - 1);
        }
    }
}

proof fn lemma_additions_len(messages: Seq<Message>, session_id: Seq<char>, ids: Seq<String>)
    ensures
        additions(messages, session_id, ids).len() == unsaved(messages),
    decreases messages.len(),
{
    if messages.len() > 0 {
        lemma_additions_len(messages.drop_last(), session_id, ids);
    }
}

/// Write every not-yet-stored message and refresh the session row.
///
/// The row ids have to be written back into the session afterwards, with
/// `persisted`. Without that every message looks new on the next turn, and the
/// whole conversation is inserted again — turning an N-turn chat into
/// N(N+1)/2 stored messages.
///
/// The user turn was written ahead of the provider call; it is a real part of
/// the conversation now that the turn is over. Only the latest prompt of the
/// conversation is promoted — prompts that an earlier turn gave back stay
/// pending so they never silently reappear in the middle of a conversation.
pub fn persist_session(session: &Session, now: Timestamp, ids: &Vec<String>) -> (plan: Vec<Write>)
    requires
        now.storable(),
        ids@.len() >= unsaved(session.messages@),
    ensures
        changes(plan@) == persist_changes(*session, now, ids@),
        all_storable(plan@),
{
    let mut plan: Vec<Write> = Vec::new();
    if session.temporary {
        assert(changes(plan@) =~= Seq::<Change>::empty());
        return plan;
    }
    plan.push(upsert(session, session.name.as_str(), now));
    let ghost start = seq![Change::UpsertSession(session_row(*session, session.name@, now))];
    let ghost all = session.messages@;
    let mut next: usize = 0;
    assert(changes(plan@) =~= start + additions(all.take(0), session.id@, ids@));
    for i in 0..session.messages.len()
        invariant
            all == session.messages@,
            ids@.len() >= unsaved(all),
            next == unsaved(all.take(i as int)),
            changes(plan@) == start + additions(all.take(i as int), session.id@, ids@),
            all_storable(plan@),
    {
        proof {
            assert(all.take(i + 1).drop_last() =~= all.take(i as int));
            lemma_unsaved_prefix(all, i + 1);
        }
        if session.messages[i].id.as_str().is_empty() {
            let ghost before = plan@;
            let stored = session.messages[i].copy_with_id(ids[next].clone());
            let message = stored.to_entity(&session.id);
            plan.push(Write::AddMessage { message });
            next += 1;
            assert(changes(plan@) =~= changes(before).push(
                Change::AddMessage(session.id@, turn_of(stored)),
            ));
            assert(changes(plan@) =~= start + additions(all.take(i + 1), session.id@, ids@));
        }
    }
    assert(all.take(all.len() as int) =~= all);
    match prompt_id(&session.messages, ids) {
        Some(id) => {
            let ghost before = plan@;
            plan.push(Write::PromoteMessage { id });
            assert(changes(plan@) =~= changes(before) + seq![Change::PromoteMessage(id@)]);
        },
        None => {
            assert(changes(plan@) =~= changes(plan@) + Seq::<Change>::empty());
        },
    }
    plan
}

/// The ids that are in use after `done` of the planned writes.
pub open spec fn used_ids(session: Session, ids: Seq<String>, done: int) -> Seq<String> {
    let added = if done <= 0 {
        0
    } else if done - 1 < unsaved(session.messages@) {
        done - 1
    } else {
        unsaved(session.messages@) as int
    };
    ids.take(added)
}

fn assign_ids(messages: &mut Vec<Message>, ids: &Vec<String>, count: usize)
    requires
        count <= ids@.len(),
    ensures
        final(messages)@ == with_ids(old(messages)@, ids@.take(count as int)),
{
    let ghost all = messages@;
    let ghost used = ids@.take(count as int);
    let mut next: usize = 0;
    assert(messages@ =~= with_ids(all.take(0), used) + all.skip(0));
    let n = messages.len();
    for i in 0..n
        invariant
            count <= ids@.len(),
            used == ids@.take(count as int),
            n == all.len(),
            next == unsaved(all.take(i as int)),
            next <= i,
            with_ids(all.take(i as int), used).len() == i,
            messages@ == with_ids(all.take(i as int), used) + all.skip(i as int),
    {
        let ghost before = messages@;
        assert(all.take(i + 1).drop_last() =~= all.take(i as int));
        assert(before[i as int] == all[i as int]);
        if messages[i].id.as_str().is_empty() {
            if next < count {
                let id = ids[next].clone();
                messages[i].id = id;
            }
            next += 1;
        }
        assert(messages@ =~= with_ids(all.take(i + 1), used) + all.skip(i + 1));
    }
    assert(all.take(n as int) =~= all);
    assert(messages@ =~= with_ids(all, used));
}

/// The session after `done` writes of the plan of `persist_session` have been
/// made: the row ids are in the messages they belong to, and once all of the
/// plan is done the session counts as used.
pub fn persisted(session: &mut Session, now: Timestamp, ids: &Vec<String>, done: usize)
    requires
        ids@.len() >= unsaved(old(session).messages@),
        done <= persist_changes(*old(session), now, ids@).len(),
    ensures
        *final(session) == (Session {
            messages: final(session).messages,
            last_used_at: final(session).last_used_at,
            ..*old(session)
        }),
        old(session).temporary ==> *final(session) == *old(session),
        !old(session).temporary ==> {
            &&& final(session).messages@ == with_ids(
                old(session).messages@,
                used_ids(*old(session), ids@, done as int),
            )
            &&& final(session).last_used_at == if done == persist_changes(
                *old(session),
                now,
                ids@,
            ).len() {
                now
            } else {
                old(session).last_used_at
            }
        },
{
    if session.temporary {
        return;
    }
    let count = unsaved_messages(session);
    let prompt = prompt_id(&session.messages, ids);
    proof {
        lemma_additions_len(session.messages@, session.id@, ids@);
        lemma_unsaved_prefix(session.messages@, 0);
    }
    let expected: u128 = 1 + count as u128 + match prompt {
        Some(_) => 1u128,
        None => 0u128,
    };
    let added: usize = if done == 0 {
        0
    } else if done - 1 < count {
        done - 1
    } else {
        count
    };
    assign_ids(&mut session.messages, ids, added);
    if done as u128 == expected {
        session.last_used_at = now;
    }
}

/// What failed when the write of the plan at `at` could not be made.
pub fn persist_failure(session: &Session, plan: &Vec<Write>, at: usize) -> (r: SessionFailure)
    requires
        at < plan@.len(),
    ensures
        match plan@[at as int] {
            Write::UpsertSession { .. } => r matches SessionFailure::Saving(name) && name
                == session.name,
            Write::AddMessage { .. } => r is SavingMessage,
            _ => r is Finalising,
        },
{
    match &plan[at] {
        Write::UpsertSession { .. } => SessionFailure::Saving(session.name.clone()),
        Write::AddMessage { .. } => SessionFailure::SavingMessage,
        _ => SessionFailure::Finalising,
    }
}

// ---------------------------------------------------------------------
// Writing a prompt ahead
// ---------------------------------------------------------------------

/// The session ends in a prompt that has not been stored.
pub open spec fn ends_in_new_prompt(session: Session) -> bool {
    session.messages@.len() > 0 && !session.messages@.last().stored()
        && session.messages@.last().role is User
}

/// A prompt as it is stored before it is answered.
pub open spec fn pending_turn(m: Message, id: Seq<char>) -> Turn {
    Turn { id, kind: PENDING@, ..turn_of(m) }
}

/// Everything that storing a prompt ahead writes.
pub open spec fn write_ahead_changes(session: Session, now: Timestamp, id: Seq<char>) -> Seq<
    Change,
> {
    if session.temporary {
        Seq::empty()
    } else if ends_in_new_prompt(session) {
        seq![
            Change::UpsertSession(session_row(session, session.name@, now)),
            Change::AddMessage(session.id@, pending_turn(session.messages@.last(), id)),
        ]
    } else {
        seq![Change::UpsertSession(session_row(session, session.name@, now))]
    }
}

/// Store the user's turn *before* the provider is called.
///
/// A dropped connection, a closed terminal or a crash between here and the
/// response used to take the typed prompt with it. The row is marked pending
/// so it stays out of the conversation until the save that ends the turn.
pub fn write_ahead_user_message(session: &Session, now: Timestamp, id: &String) -> (plan: Vec<
    Write,
>)
    requires
        now.storable(),
    ensures
        changes(plan@) == write_ahead_changes(*session, now, id@),
        all_storable(plan@),
{
    let mut plan: Vec<Write> = Vec::new();
    if session.temporary {
        assert(changes(plan@) =~= Seq::<Change>::empty());
        return plan;
    }
    plan.push(upsert(session, session.name.as_str(), now));
    let count = session.messages.len();
    if count > 0 {
        let last = &session.messages[count - 1];
        if last.id.as_str().is_empty() && last.role.is_user() {
            let mut message = last.copy_with_id(id.clone()).to_entity(&session.id);
            message.message_type = PENDING.to_owned();
            plan.push(Write::AddMessage { message });
        }
    }
    assert(changes(plan@) =~= write_ahead_changes(*session, now, id@));
    plan
}

/// The session after `done` writes of the plan of `write_ahead_user_message`
/// have been made.
pub fn written_ahead(session: &mut Session, now: Timestamp, id: &String, done: usize)
    ensures
        if !old(session).temporary && ends_in_new_prompt(*old(session)) && done >= 2 {
            let last = old(session).messages@.last();
            &&& final(session).messages@ == old(session).messages@.drop_last().push(
                Message { id: *id, ..last },
            )
            &&& *final(session) == (Session {
                messages: final(session).messages,
                last_used_at: now,
                ..*old(session)
            })
        } else {
            *final(session) == *old(session)
        },
{
    if session.temporary || done < 2 {
        return;
    }
    let count = session.messages.len();
    if count > 0 && session.messages[count - 1].id.as_str().is_empty() && session.messages[count
        - 1].role.is_user() {
        session.messages[count - 1].id = id.clone();
        session.last_used_at = now;
        assert(session.messages@ =~= old(session).messages@.drop_last().push(
            Message { id: *id, ..old(session).messages@.last() },
        ));
    }
}

/// What failed when the write of the plan at `at` could not be made.
pub fn write_ahead_failure(session: &Session, at: usize) -> (r: SessionFailure)
    ensures
        at == 0 ==> (r matches SessionFailure::Saving(name) && name == session.name),
        at > 0 ==> r is SavingPrompt,
{
    if at == 0 {
        SessionFailure::Saving(session.name.clone())
    } else {
        SessionFailure::SavingPrompt
    }
}

/// Prompts that were stored but never answered, oldest first.
pub fn recover_unsent_messages(session: &Session, fetched: Option<Vec<String>>) -> (r: Vec<String>)
    ensures
        r@ == match fetched {
            Some(list) => if session.temporary {
                Seq::<String>::empty()
            } else {
                list@
            },
            None => Seq::<String>::empty(),
        },
{
    if session.temporary {
        return Vec::new();
    }
    match fetched {
        Some(list) => list,
        None => Vec::new(),
    }
}

/// Drop recovered prompts once the user has been given them back.
pub fn clear_unsent_messages(session: &Session) -> (r: Option<Write>)
    ensures
        match r {
            Some(write) => !session.temporary && write@ == Change::DiscardPending(session.id@)
                && write.storable(),
            None => session.temporary,
        },
{
    if session.temporary {
        None
    } else {
        Some(Write::DiscardPending { session_id: session.id.clone() })
    }
}

// ---------------------------------------------------------------------
// Opening
// ---------------------------------------------------------------------

/// How a session is opened by name.
#[derive(Debug)]
pub enum Opening {
    /// It exists.
    Found(Session),
    /// It has to be made by these writes, and then read back.
    Create(Vec<Write>),
}

/// The session that a row holds, without its messages.
pub open spec fn session_of(session: Session, row: SessionEntity) -> bool {
    &&& session.id == row.id
    &&& session.name == row.name
    &&& session.messages@.len() == 0
    &&& session.current == (row.current != 0)
    &&& !session.temporary
    &&& session.last_used_at == row.last_used_at
}

/// Open the session with this name: `found` is the row with it, if there is
/// one.
pub fn session(found: Option<&SessionEntity>, name: &str, id: &String, now: Timestamp) -> (r:
    Opening)
    requires
        now.storable(),
    ensures
        match found {
            Some(row) => r matches Opening::Found(s) && session_of(s, *row),
            None => r matches Opening::Create(plan) && all_storable(plan@) && changes(plan@)
                == seq![
                Change::RemoveCurrentFromAll,
                Change::AddSession(
                    SessionRow { id: id@, name: name@, last_used_at: now, current: true },
                ),
            ],
        },
{
    match found {
        Some(row) => Opening::Found(Session::from_entity(row)),
        None => {
            let mut plan: Vec<Write> = Vec::new();
            plan.push(Write::RemoveCurrentFromAll);
            plan.push(
                Write::AddSession {
                    id: id.clone(),
                    name: name.to_owned(),
                    last_used_at: now,
                    current: true,
                },
            );
            assert(changes(plan@) =~= seq![
                Change::RemoveCurrentFromAll,
                Change::AddSession(
                    SessionRow { id: id@, name: name@, last_used_at: now, current: true },
                ),
            ]);
            Opening::Create(plan)
        },
    }
}

/// What failed when opening could not do the step at `at`: the two writes, and
/// then the read.
pub fn opening_failure(name: &str, at: usize) -> (r: SessionFailure)
    ensures
        at == 0 ==> r is ClearingCurrent,
        at == 1 ==> (r matches SessionFailure::Creating(n) && n@ == name@),
        at > 1 ==> (r matches SessionFailure::ReadingBack(n) && n@ == name@),
{
    if at == 0 {
        SessionFailure::ClearingCurrent
    } else if at == 1 {
        SessionFailure::Creating(name.to_owned())
    } else {
        SessionFailure::ReadingBack(name.to_owned())
    }
}

/// The message says what the row says.
pub open spec fn message_of(m: Message, row: MessageEntity) -> bool {
    &&& turn_of(m) == turn_of_entity(row)
    &&& m.role is User <==> row.role@ == "user"@
    &&& m.role is Assistant <==> row.role@ == "assistant"@
}

/// The session with the messages of these rows, or with none when they could
/// not be read.
pub fn session_with_messages(session: &Session, rows: Option<Vec<MessageEntity>>) -> (r: Session)
    ensures
        r == (Session { messages: r.messages, ..*session }),
        match rows {
            Some(list) => {
                &&& r.messages@.len() == list@.len()
                &&& forall|i: int|
                    0 <= i < list@.len() ==> message_of(#[trigger] r.messages@[i], list@[i])
            },
            None => r.messages@.len() == 0,
        },
{
    let mut messages: Vec<Message> = Vec::new();
    if let Some(list) = rows {
        for i in 0..list.len()
            invariant
                messages@.len() == i,
                forall|j: int| 0 <= j < i ==> message_of(#[trigger] messages@[j], list@[j]),
        {
            messages.push(Message::from_entity(&list[i]));
        }
    }
    session.copy_with_messages(messages)
}

// ---------------------------------------------------------------------
// Renaming
// ---------------------------------------------------------------------

/// Why a session cannot have a name.
#[derive(Debug)]
pub enum RenameError {
    /// The name is blank.
    Empty,
    /// A different session has it.
    Taken(String),
}

impl RenameError {
    pub open spec fn words(self) -> Seq<char> {
        match self {
            RenameError::Empty => "a session name cannot be empty"@,
            RenameError::Taken(name) => "a different session is already called '"@ + name@
                + "' — pick another name"@,
        }
    }

    pub fn message(&self) -> (r: String)
        ensures
            r@ == self.words(),
    {
        match self {
            RenameError::Empty => "a session name cannot be empty".to_owned(),
            RenameError::Taken(name) => {
                let start = concat("a different session is already called '", name.as_str());
                concat(start.as_str(), "' — pick another name")
            },
        }
    }
}

/// How a rename goes on.
#[derive(Debug)]
pub enum RenameStep {
    /// The session has that name already.
    Unchanged,
    /// The name is free unless another session has it.
    LookUp(String),
}

/// Rename a session, refusing to collide with an existing one: what to do
/// with the new name before any session is looked up.
pub fn rename_session(session: &Session, new_name: &str) -> (r: Result<RenameStep, RenameError>)
    ensures
        match r {
            Err(e) => e is Empty && trimmed(new_name@).len() == 0,
            Ok(RenameStep::Unchanged) => trimmed(new_name@).len() > 0 && trimmed(new_name@)
                == session.name@,
            Ok(RenameStep::LookUp(name)) => name@ == trimmed(new_name@) && name@.len() > 0 && name@
                != session.name@,
        },
{
    let name = trim(new_name);
    if name.as_str().is_empty() {
        Err(RenameError::Empty)
    } else if same(name.as_str(), session.name.as_str()) {
        Ok(RenameStep::Unchanged)
    } else {
        Ok(RenameStep::LookUp(name))
    }
}

/// Rename to a name that was looked up: `existing` is the session that has it,
/// if there is one.
pub fn rename_looked_up(
    session: &Session,
    name: &String,
    existing: Option<&SessionEntity>,
    now: Timestamp,
) -> (r: Result<Write, RenameError>)
    requires
        now.storable(),
    ensures
        match r {
            Ok(write) => {
                &&& existing matches Some(row) ==> row.id@ == session.id@
                &&& write@ == Change::UpsertSession(session_row(*session, name@, now))
                &&& write.storable()
            },
            Err(e) => {
                &&& existing matches Some(row) && row.id@ != session.id@
                &&& e matches RenameError::Taken(n) && n == *name
            },
        },
{
    if let Some(row) = existing {
        if !same(row.id.as_str(), session.id.as_str()) {
            return Err(RenameError::Taken(name.clone()));
        }
    }
    Ok(upsert(session, name.as_str(), now))
}

/// The session after the rename has been written.
pub fn renamed(session: &mut Session, name: &String, now: Timestamp)
    ensures
        *final(session) == (Session { name: *name, last_used_at: now, ..*old(session) }),
{
    session.name = name.clone();
    session.last_used_at = now;
}

// ---------------------------------------------------------------------
// Resuming
// ---------------------------------------------------------------------

/// The session at `a` was used after the one at `b`.
pub open spec fn used_after(rows: Seq<SessionEntity>, a: int, b: int) -> bool {
    rows[a].last_used_at.after(rows[b].last_used_at)
}

/// The positions of the sessions, most recently used first.
pub open spec fn recent_order(rows: Seq<SessionEntity>) -> Seq<int> {
    stable_order(rows.len(), |a: int, b: int| used_after(rows, a, b))
}

/// A count that was read and is not zero.
pub open spec fn has_messages(count: Option<i64>) -> bool {
    count matches Some(n) && n > 0
}

/// The first of the positions whose session holds messages.
pub open spec fn first_in_use(order: Seq<int>, counts: Seq<Option<i64>>) -> Option<int>
    decreases order.len(),
{
    if order.len() == 0 {
        None
    } else if has_messages(counts[order[0]]) {
        Some(order[0])
    } else {
        first_in_use(order.skip(1), counts)
    }
}

/// The position of the session to resume.
pub open spec fn most_recent(rows: Seq<SessionEntity>, counts: Seq<Option<i64>>) -> int {
    match first_in_use(recent_order(rows), counts) {
        Some(at) => at,
        None => recent_order(rows)[0],
    }
}

/// The session to resume, without its messages: the most recently used one
/// that holds any; the most recent one when none does. `counts[i]` is the
/// number of messages in `rows[i]`, where it could be read.
///
/// An empty session carries nothing to resume, and a freshly created one
/// would otherwise outrank every real conversation.
pub fn get_most_recent_session(rows: &Vec<SessionEntity>, counts: &Vec<Option<i64>>) -> (r: Result<
    Session,
    String,
>)
    requires
        counts@.len() == rows@.len(),
    ensures
        match r {
            Ok(session) => {
                &&& rows@.len() > 0
                &&& 0 <= most_recent(rows@, counts@) < rows@.len()
                &&& session_of(session, rows@[most_recent(rows@, counts@)])
                &&& exists|at: int|
                    0 <= at < rows@.len() && (#[trigger] rows@[at]).id@ == session.id@
                        && rows@[at].name@ == session.name@ && rows@[at].last_used_at
                        == session.last_used_at && forall|j: int|
                        0 <= j < rows@.len() && (#[trigger] counts@[j] matches Some(n) && n > 0)
                            ==> (counts@[at] matches Some(m) && m > 0)
                            && session.last_used_at.seconds >= rows@[j].last_used_at.seconds && (
                        session.last_used_at.seconds == rows@[j].last_used_at.seconds
                            ==> session.last_used_at.nanos >= rows@[j].last_used_at.nanos)
            },
            Err(e) => rows@.len() == 0 && e@
                == "No previous sessions found. Start one with: termai chat --session <name>"@,
        },
{
    if rows.len() == 0 {
        return Err(
            "No previous sessions found. Start one with: termai chat --session <name>".to_owned(),
        );
    }
    let ghost before = |a: int, b: int| used_after(rows@, a, b);
    let later = |a: usize, b: usize| -> (r: bool)
        requires
            a < rows.len(),
            b < rows.len(),
        ensures
            r == used_after(rows@, a as int, b as int),
        {
            rows[a].last_used_at.is_after(rows[b].last_used_at)
        };
    let order = order_positions(rows.len(), later, Ghost(before));
    let ghost ints = order@.map_values(|i: usize| i as int);
    assert(ints.skip(0) =~= ints);
    let mut at: usize = 0;
    while at < order.len() && !in_use(&counts[order[at]])
        invariant
            at <= order@.len(),
            counts@.len() == rows@.len(),
            order@.len() == rows@.len(),
            forall|i: int| 0 <= i < order@.len() ==> #[trigger] order@[i] < rows@.len(),
            ints == order@.map_values(|i: usize| i as int),
            first_in_use(ints, counts@) == first_in_use(ints.skip(at as int), counts@),
        decreases order@.len() - at,
    {
        assert(ints.skip(at as int).skip(1) =~= ints.skip(at + 1));
        assert(ints.skip(at as int)[0] == order@[at as int]);
        at += 1;
    }
    proof {
        if at < order@.len() {
            assert(ints.skip(at as int)[0] == order@[at as int]);
        } else {
            assert(ints.skip(at as int).len() == 0);
        }
    }
    let chosen = if at < order.len() {
        order[at]
    } else {
        order[0]
    };
    let session = Session::from_entity(&rows[chosen]);
    proof {
        let at = chosen as int;
        assert(at == most_recent(rows@, counts@));
        assert forall|j: int|
            0 <= j < rows@.len() && (#[trigger] counts@[j] matches Some(n) && n > 0) implies (
        counts@[at] matches Some(m) && m > 0) && session.last_used_at.seconds
            >= rows@[j].last_used_at.seconds && (session.last_used_at.seconds
            == rows@[j].last_used_at.seconds ==> session.last_used_at.nanos
            >= rows@[j].last_used_at.nanos) by {
            the_resumed_session_is_the_latest_in_use(rows@, counts@, j);
        }
        assert(rows@[at].id@ == session.id@);
    }
    Ok(session)
}

proof fn lemma_recent_order(rows: Seq<SessionEntity>)
    ensures
        each_once(recent_order(rows), rows.len() as int),
        in_order(recent_order(rows), |a: int, b: int| used_after(rows, a, b)),
{
    let before = |a: int, b: int| used_after(rows, a, b);
    stable_order_is_stable(rows.len(), before);
}

proof fn lemma_first_in_use(order: Seq<int>, counts: Seq<Option<i64>>)
    ensures
        match first_in_use(order, counts) {
            Some(at) => exists|k: int|
                0 <= k < order.len() && #[trigger] order[k] == at && has_messages(counts[at])
                    && forall|j: int| 0 <= j < k ==> !has_messages(counts[#[trigger] order[j]]),
            None => forall|j: int|
                0 <= j < order.len() ==> !has_messages(counts[#[trigger] order[j]]),
        },
    decreases order.len(),
{
    if order.len() > 0 {
        let rest = order.skip(1);
        if has_messages(counts[order[0]]) {
            assert(order[0] == first_in_use(order, counts)->0);
        } else {
            lemma_first_in_use(rest, counts);
            match first_in_use(order, counts) {
                Some(at) => {
                    let k = choose|k: int|
                        0 <= k < rest.len() && #[trigger] rest[k] == at && has_messages(counts[at])
                            && forall|j: int|
                            0 <= j < k ==> !has_messages(counts[#[trigger] rest[j]]);
                    assert(order[k + 1] == at);
                    assert forall|j: int| 0 <= j < k + 1 implies !has_messages(
                        counts[#[trigger] order[j]],
                    ) by {
                        if j > 0 {
                            assert(order[j] == rest[j - 1]);
                        }
                    }
                },
                None => {
                    assert forall|j: int| 0 <= j < order.len() implies !has_messages(
                        counts[#[trigger] order[j]],
                    ) by {
                        if j > 0 {
                            assert(order[j] == rest[j - 1]);
                        }
                    }
                },
            }
        }
    }
}

/// The session that is resumed holds a conversation when any does, and no
/// session that holds one was used later; when none does, no session at all
/// was.
pub proof fn the_resumed_session_is_the_latest_in_use(
    rows: Seq<SessionEntity>,
    counts: Seq<Option<i64>>,
    other: int,
)
    requires
        counts.len() == rows.len(),
        0 <= other < rows.len(),
    ensures
        0 <= most_recent(rows, counts) < rows.len(),
        has_messages(counts[other]) ==> has_messages(counts[most_recent(rows, counts)])
            && !used_after(rows, other, most_recent(rows, counts)),
        !has_messages(counts[most_recent(rows, counts)]) ==> !used_after(
            rows,
            other,
            most_recent(rows, counts),
        ),
{
    let order = recent_order(rows);
    lemma_recent_order(rows);
    lemma_first_in_use(order, counts);
    assert(order.contains(other));
    let j = choose|j: int| 0 <= j < order.len() && order[j] == other;
    let before = |a: int, b: int| used_after(rows, a, b);
    match first_in_use(order, counts) {
        Some(at) => {
            let k = choose|k: int|
                0 <= k < order.len() && #[trigger] order[k] == at && has_messages(counts[at])
                    && forall|i: int| 0 <= i < k ==> !has_messages(counts[#[trigger] order[i]]);
            if j < k {
                assert(!has_messages(counts[order[j]]));
            } else if k < j {
                assert(!before(order[j], order[k]));
            }
        },
        None => {
            assert(!has_messages(counts[order[j]]));
            if 0 < j {
                assert(!before(order[j], order[0]));
            }
        },
    }
}

/// On the clock: the resumed session holds messages when any does, and then
/// every session that holds messages was used at an earlier second, at the
/// same second but no later in it, or at the very same time and stands behind
/// it. When none holds messages, this is so of every session.
pub proof fn the_resumed_session_has_the_latest_time(
    rows: Seq<SessionEntity>,
    counts: Seq<Option<i64>>,
    j: int,
)
    requires
        counts.len() == rows.len(),
        0 <= j < rows.len(),
    ensures
        0 <= most_recent(rows, counts) < rows.len(),
        (counts[j] matches Some(n) && n > 0) ==> (counts[most_recent(
            rows,
            counts,
        )] matches Some(m) && m > 0),
        (counts[j] matches Some(n) && n > 0) || !(counts[most_recent(
            rows,
            counts,
        )] matches Some(m) && m > 0) ==> {
            let a = rows[most_recent(rows, counts)].last_used_at;
            let b = rows[j].last_used_at;
            ||| a.seconds > b.seconds
            ||| a.seconds == b.seconds && a.nanos > b.nanos
            ||| a.seconds == b.seconds && a.nanos == b.nanos && most_recent(rows, counts) <= j
        },
{
    let order = recent_order(rows);
    lemma_recent_order(rows);
    lemma_first_in_use(order, counts);
    assert(order.contains(j));
    let at = choose|i: int| 0 <= i < order.len() && order[i] == j;
    let before = |a: int, b: int| used_after(rows, a, b);
    match first_in_use(order, counts) {
        Some(found) => {
            let k = choose|k: int|
                0 <= k < order.len() && #[trigger] order[k] == found && has_messages(counts[found])
                    && forall|i: int| 0 <= i < k ==> !has_messages(counts[#[trigger] order[i]]);
            if at < k {
                assert(!has_messages(counts[order[at]]));
            } else if k < at {
                assert(!before(order[at], order[k]));
                assert(before(order[k], order[at]) || order[k] < order[at]);
            }
        },
        None => {
            assert(!has_messages(counts[order[at]]));
            assert(!has_messages(counts[order[0]]));
            if 0 < at {
                assert(!before(order[at], order[0]));
                assert(before(order[0], order[at]) || order[0] < order[at]);
            }
        },
    }
}

fn in_use(count: &Option<i64>) -> (r: bool)
    ensures
        r == has_messages(*count),
{
    match count {
        Some(n) => *n > 0,
        None => false,
    }
}

/// Remove a session that was created for a chat which never happened.
///
/// Opening a chat writes the row up front so the first prompt can be stored
/// before the provider is called; a chat abandoned before saying anything
/// would otherwise leave an empty session behind for good. `count` and
/// `pending` are what could be read of its messages and unanswered prompts.
pub fn discard_if_empty(session: &Session, count: Option<i64>, pending: Option<usize>) -> (r: Option<
    Write,
>)
    ensures
        match r {
            Some(write) => write@ == Change::DeleteSession(session.id@) && write.storable(),
            None => true,
        },
        r is Some <==> !session.temporary && session.messages@.len() == 0 && count == Some(0i64)
            && pending == Some(0usize),
{
    if session.temporary || session.messages.len() > 0 {
        return None;
    }
    let nothing_stored = match count {
        Some(n) => n == 0,
        None => false,
    };
    let nothing_pending = match pending {
        Some(n) => n == 0,
        None => false,
    };
    if nothing_stored && nothing_pending {
        Some(Write::DeleteSession { id: session.id.clone() })
    } else {
        None
    }
}

/// Confirm from the database that a session really holds what we think it
/// does: the count that was read, or the failure in words.
pub fn stored_message_count(count: Result<i64, String>) -> (r: Result<i64, String>)
    ensures
        match count {
            Ok(n) => r == Ok::<i64, String>(n),
            Err(cause) => r matches Err(e) && e@ == SessionFailure::Counting.words(cause@),
        },
{
    match count {
        Ok(n) => Ok(n),
        Err(cause) => Err(SessionFailure::Counting.message(cause.as_str())),
    }
}

} // verus!
