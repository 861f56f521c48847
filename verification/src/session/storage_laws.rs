//! What the store holds after the plans of the session service have been
//! carried out.

#[allow(unused_imports)]
use crate::chat::interactive::InteractiveSession;
#[allow(unused_imports)]
use crate::session::message_repository::{DUPLICATE, PENDING};
#[allow(unused_imports)]
use crate::session::model::{Message, Session, STANDARD};
#[allow(unused_imports)]
use crate::session::sessions_service::{
    additions, ends_in_new_prompt, last_user, pending_turn, persist_changes, promotion,
    session_row, unsaved, with_ids, write_ahead_changes,
};
#[allow(unused_imports)]
use crate::session::tables::{
    after, after_all, consistent, conversation, every_write_keeps_the_tables_consistent,
    has_message, has_name, has_session, in_conversation, name_taken, next_sequence,
    pending, promoted, replaced, turn_of, with_kind, writes_keep_the_tables_consistent, Change,
    MessageRow, SessionRow, Tables, Turn,
};
#[allow(unused_imports)]
use crate::time::Timestamp;
use vstd::prelude::*;

verus! {

// ---------------------------------------------------------------------
// Lists of writes and of rows
// ---------------------------------------------------------------------

proof fn lemma_after_all_append(t: Tables, first: Seq<Change>, second: Seq<Change>)
    ensures
        after_all(t, first + second) == match after_all(t, first) {
            Some(u) => after_all(u, second),
            None => None,
        },
    decreases second.len(),
{
    if second.len() == 0 {
        assert(first + second =~= first);
    } else {
        assert((first + second).drop_last() =~= first + second.drop_last());
        lemma_after_all_append(t, first, second.drop_last());
    }
}

proof fn lemma_after_one(t: Tables, change: Change)
    ensures
        after_all(t, seq![change]) == after(t, change),
{
    assert(seq![change].drop_last() =~= Seq::<Change>::empty());
    assert(after_all(t, Seq::<Change>::empty()) == Some(t));
}

proof fn lemma_reads_append(a: Seq<MessageRow>, b: Seq<MessageRow>, session_id: Seq<char>)
    ensures
        conversation(a + b, session_id) == conversation(a, session_id) + conversation(
            b,
            session_id,
        ),
        pending(a + b, session_id) == pending(a, session_id) + pending(b, session_id),
    decreases b.len(),
{
    if b.len() == 0 {
        assert(a + b =~= a);
        assert(conversation(b, session_id) =~= Seq::<Turn>::empty());
        assert(pending(b, session_id) =~= Seq::<Turn>::empty());
        assert(conversation(a, session_id) + Seq::<Turn>::empty() =~= conversation(a, session_id));
        assert(pending(a, session_id) + Seq::<Turn>::empty() =~= pending(a, session_id));
    } else {
        assert((a + b).drop_last() =~= a + b.drop_last());
        lemma_reads_append(a, b.drop_last(), session_id);
        assert(conversation(a + b, session_id) =~= conversation(a, session_id) + conversation(
            b,
            session_id,
        ));
        assert(pending(a + b, session_id) =~= pending(a, session_id) + pending(b, session_id));
    }
}

// ---------------------------------------------------------------------
// What saving adds
// ---------------------------------------------------------------------

/// What the unsaved messages say once they have their ids.
pub open spec fn added_turns(messages: Seq<Message>, ids: Seq<String>) -> Seq<Turn>
    decreases messages.len(),
{
    if messages.len() == 0 {
        Seq::empty()
    } else {
        let rest = added_turns(messages.drop_last(), ids);
        if messages.last().stored() {
            rest
        } else {
            rest.push(
                turn_of(
                    Message {
                        id: ids[unsaved(messages.drop_last()) as int],
                        ..messages.last()
                    },
                ),
            )
        }
    }
}

/// What a list of messages says.
pub open spec fn turns(messages: Seq<Message>) -> Seq<Turn> {
    messages.map_values(|m: Message| turn_of(m))
}

/// The first `n` ids are usable as new ones: none is empty, no two are the
/// same, and no message of the store has one of them.
pub open spec fn fresh_ids(messages: Seq<MessageRow>, ids: Seq<String>, n: int) -> bool {
    &&& n <= ids.len()
    &&& forall|i: int| 0 <= i < n ==> (#[trigger] ids[i])@.len() > 0
    &&& forall|i: int, j: int| 0 <= i < j < n ==> (#[trigger] ids[i])@ != (#[trigger] ids[j])@
    &&& forall|i: int| 0 <= i < n ==> !has_message(messages, (#[trigger] ids[i])@)
}

/// The message is neither waiting for an answer nor set aside.
pub open spec fn ordinary(m: Message) -> bool {
    m.message_type@ != PENDING@ && m.message_type@ != DUPLICATE@
}

/// The unsaved messages are ordinary ones.
pub open spec fn new_ones_ordinary(messages: Seq<Message>) -> bool {
    forall|i: int|
        0 <= i < messages.len() && !(#[trigger] messages[i]).stored() ==> ordinary(messages[i])
}

/// `more` is `messages` followed by rows that read as `said` in this session,
/// as nothing in any other, and wait for no answer.
spec fn extended(
    messages: Seq<MessageRow>,
    more: Seq<MessageRow>,
    session_id: Seq<char>,
    said: Seq<Turn>,
) -> bool {
    &&& more.len() >= messages.len()
    &&& more.take(messages.len() as int) == messages
    &&& forall|i: int| messages.len() <= i < more.len() ==> (#[trigger] more[i]).turn.kind
        != PENDING@
    &&& forall|s: Seq<char>| #[trigger]
        conversation(more, s) == conversation(messages, s) + if s == session_id {
            said
        } else {
            Seq::<Turn>::empty()
        }
    &&& forall|s: Seq<char>| #[trigger] pending(more, s) == pending(messages, s)
}

proof fn lemma_additions(
    t: Tables,
    messages: Seq<Message>,
    session_id: Seq<char>,
    ids: Seq<String>,
)
    requires
        fresh_ids(t.messages, ids, unsaved(messages) as int),
        new_ones_ordinary(messages),
    ensures
        ({
            let run = after_all(t, additions(messages, session_id, ids));
            &&& run is Some
            &&& run->0.sessions == t.sessions
            &&& extended(t.messages, run->0.messages, session_id, added_turns(messages, ids))
            &&& forall|i: int|
                t.messages.len() <= i < run->0.messages.len() ==> exists|k: int|
                    0 <= k < unsaved(messages) && (#[trigger] run->0.messages[i]).turn.id
                        == #[trigger] ids[k]@
        }),
    decreases messages.len(),
{
    if messages.len() == 0 {
        assert(t.messages.take(t.messages.len() as int) =~= t.messages);
        assert forall|s: Seq<char>| #[trigger] conversation(t.messages, s) == conversation(
            t.messages,
            s,
        ) + Seq::<Turn>::empty() by {
            assert(conversation(t.messages, s) + Seq::<Turn>::empty() =~= conversation(
                t.messages,
                s,
            ));
        }
    } else {
        let rest = messages.drop_last();
        let last = messages.last();
        let k = unsaved(rest) as int;
        assert(forall|i: int| 0 <= i < rest.len() ==> rest[i] == messages[i]);
        lemma_additions(t, rest, session_id, ids);
        let mid = after_all(t, additions(rest, session_id, ids))->0;
        if !last.stored() {
            let turn = turn_of(Message { id: ids[k], ..last });
            assert(additions(messages, session_id, ids).drop_last() =~= additions(
                rest,
                session_id,
                ids,
            ));
            assert(!has_message(mid.messages, turn.id)) by {
                if has_message(mid.messages, turn.id) {
                    let i = choose|i: int|
                        0 <= i < mid.messages.len() && (#[trigger] mid.messages[i]).turn.id
                            == turn.id;
                    if i < t.messages.len() {
                        assert(t.messages[i] == mid.messages.take(t.messages.len() as int)[i]);
                        assert(has_message(t.messages, ids[k]@));
                    } else {
                        let j = choose|j: int|
                            0 <= j < unsaved(rest) && mid.messages[i].turn.id == #[trigger] ids[j]@;
                        assert(ids[j]@ != ids[k]@);
                    }
                }
            }
            let row = MessageRow {
                session_id,
                turn,
                sequence: next_sequence(mid.messages, session_id),
            };
            let end = mid.messages.push(row);
            assert(after_all(t, additions(messages, session_id, ids)) == Some(
                Tables { messages: end, ..mid },
            ));
            assert(end.take(t.messages.len() as int) =~= mid.messages.take(
                t.messages.len() as int,
            ));
            assert(end.drop_last() =~= mid.messages);
            assert(ordinary(messages[messages.len() - 1]));
            assert forall|s: Seq<char>| #[trigger] conversation(end, s) == conversation(
                t.messages,
                s,
            ) + if s == session_id {
                added_turns(messages, ids)
            } else {
                Seq::<Turn>::empty()
            } by {
                assert(conversation(mid.messages, s) == conversation(t.messages, s) + if s
                    == session_id {
                    added_turns(rest, ids)
                } else {
                    Seq::<Turn>::empty()
                });
                if s == session_id {
                    assert(conversation(end, s) =~= conversation(t.messages, s) + added_turns(
                        messages,
                        ids,
                    ));
                }
            }
            assert forall|s: Seq<char>| #[trigger] pending(end, s) == pending(
                t.messages,
                s,
            ) by {
                assert(pending(mid.messages, s) == pending(t.messages, s));
            }
            assert forall|i: int| t.messages.len() <= i < end.len() implies exists|j: int|
                0 <= j < unsaved(messages) && (#[trigger] end[i]).turn.id == #[trigger] ids[j]@ by {
                if i < mid.messages.len() {
                    let j = choose|j: int|
                        0 <= j < unsaved(rest) && mid.messages[i].turn.id == #[trigger] ids[j]@;
                    assert(end[i].turn.id == ids[j]@);
                } else {
                    assert(end[i].turn.id == ids[k]@);
                }
            }
        }
    }
}

/// No row of the store with this id waits for an answer.
pub open spec fn not_waiting(messages: Seq<MessageRow>, id: Seq<char>) -> bool {
    forall|i: int|
        0 <= i < messages.len() && (#[trigger] messages[i]).turn.id == id ==> messages[i].turn.kind
            != PENDING@
}

/// The tables after the session row has been written.
proof fn lemma_upsert(t: Tables, row: SessionRow)
    requires
        !name_taken(t.sessions, row.id, row.name),
    ensures
        after(t, Change::UpsertSession(row)) is Some,
        after(t, Change::UpsertSession(row))->0.messages == t.messages,
{
}

proof fn lemma_persist(t: Tables, session: Session, now: Timestamp, ids: Seq<String>)
    requires
        !session.temporary,
        !name_taken(t.sessions, session.id@, session.name@),
        fresh_ids(t.messages, ids, unsaved(session.messages@) as int),
        new_ones_ordinary(session.messages@),
    ensures
        ({
            let row = session_row(session, session.name@, now);
            let written = after(t, Change::UpsertSession(row))->0;
            let mid = after_all(written, additions(session.messages@, session.id@, ids))->0;
            let prompt = last_user(with_ids(session.messages@, ids));
            let run = after_all(t, persist_changes(session, now, ids));
            &&& extended(
                t.messages,
                mid.messages,
                session.id@,
                added_turns(session.messages@, ids),
            )
            &&& run is Some
            &&& run->0.sessions == written.sessions
            &&& run->0.messages == match prompt {
                Some(m) => if m.stored() {
                    promoted(mid.messages, m.id@)
                } else {
                    mid.messages
                },
                None => mid.messages,
            }
        }),
{
    let row = session_row(session, session.name@, now);
    let up = Change::UpsertSession(row);
    let added = additions(session.messages@, session.id@, ids);
    let end = promotion(with_ids(session.messages@, ids));
    let written = after(t, up)->0;
    lemma_upsert(t, row);
    lemma_after_one(t, up);
    lemma_additions(written, session.messages@, session.id@, ids);
    lemma_after_all_append(t, seq![up], added);
    lemma_after_all_append(t, seq![up] + added, end);
    let mid = after_all(written, added)->0;
    match last_user(with_ids(session.messages@, ids)) {
        Some(m) => {
            if m.stored() {
                lemma_after_one(mid, Change::PromoteMessage(m.id@));
            } else {
                assert(after_all(mid, Seq::<Change>::empty()) == Some(mid));
            }
        },
        None => {
            assert(after_all(mid, Seq::<Change>::empty()) == Some(mid));
        },
    }
}

/// Saving a session adds every message that is not stored yet to the end of
/// its conversation, once and in order, and changes no other conversation and
/// no unanswered prompt. The latest prompt must not be waiting; when it is,
/// the law on a written-ahead prompt applies.
pub proof fn saving_appends_what_is_new(
    t: Tables,
    session: Session,
    now: Timestamp,
    ids: Seq<String>,
)
    requires
        consistent(t),
        !session.temporary,
        !name_taken(t.sessions, session.id@, session.name@),
        fresh_ids(t.messages, ids, unsaved(session.messages@) as int),
        new_ones_ordinary(session.messages@),
        last_user(with_ids(session.messages@, ids)) matches Some(m) ==> not_waiting(
            t.messages,
            m.id@,
        ),
    ensures
        ({
            let run = after_all(t, persist_changes(session, now, ids));
            &&& run is Some
            &&& consistent(run->0)
            &&& conversation(run->0.messages, session.id@) == conversation(
                t.messages,
                session.id@,
            ) + added_turns(session.messages@, ids)
            &&& forall|s: Seq<char>|
                s != session.id@ ==> #[trigger] conversation(run->0.messages, s) == conversation(
                    t.messages,
                    s,
                )
            &&& forall|s: Seq<char>| #[trigger]
                pending(run->0.messages, s) == pending(t.messages, s)
        }),
{
    lemma_persist(t, session, now, ids);
    let row = session_row(session, session.name@, now);
    let written = after(t, Change::UpsertSession(row))->0;
    let mid = after_all(written, additions(session.messages@, session.id@, ids))->0;
    let run = after_all(t, persist_changes(session, now, ids))->0;
    assert(run.messages =~= mid.messages) by {
        match last_user(with_ids(session.messages@, ids)) {
            Some(m) => {
                assert forall|i: int| 0 <= i < mid.messages.len() implies promoted(
                    mid.messages,
                    m.id@,
                )[i] == mid.messages[i] by {
                    if i < t.messages.len() {
                        assert(t.messages[i] == mid.messages.take(t.messages.len() as int)[i]);
                    }
                }
            },
            None => {},
        }
    }
    assert forall|s: Seq<char>| s != session.id@ implies #[trigger] conversation(run.messages, s)
        == conversation(t.messages, s) by {
        assert(conversation(mid.messages, s) == conversation(t.messages, s)
            + Seq::<Turn>::empty());
        assert(conversation(t.messages, s) + Seq::<Turn>::empty() =~= conversation(t.messages, s));
    }
    assert(conversation(mid.messages, session.id@) == conversation(t.messages, session.id@)
        + added_turns(session.messages@, ids));
    assert forall|s: Seq<char>| #[trigger] pending(run.messages, s) == pending(
        t.messages,
        s,
    ) by {
        assert(pending(mid.messages, s) == pending(t.messages, s));
    }
    writes_keep_the_tables_consistent(t, persist_changes(session, now, ids));
}

proof fn lemma_known_prefix(known: Seq<Message>, added: Seq<Message>, ids: Seq<String>)
    requires
        forall|i: int| 0 <= i < known.len() ==> (#[trigger] known[i]).stored(),
        forall|i: int| 0 <= i < added.len() ==> !(#[trigger] added[i]).stored(),
        ids.len() >= added.len(),
    ensures
        unsaved(known + added) == added.len(),
        with_ids(known + added, ids).len() == known.len() + added.len(),
        turns(with_ids(known + added, ids)) == turns(known) + added_turns(known + added, ids),
    decreases added.len(), known.len(),
{
    let all = known + added;
    if added.len() > 0 {
        let fewer = added.drop_last();
        lemma_known_prefix(known, fewer, ids);
        assert(all.drop_last() =~= known + fewer);
        assert(all.last() == added.last());
        assert(!added[added.len() - 1].stored());
        let named = Message { id: ids[unsaved(known + fewer) as int], ..all.last() };
        assert(with_ids(all, ids) =~= with_ids(known + fewer, ids).push(named));
        assert(turns(with_ids(all, ids)) =~= turns(with_ids(known + fewer, ids)).push(
            turn_of(named),
        ));
        assert(turns(with_ids(all, ids)) =~= turns(known) + added_turns(all, ids));
    } else if known.len() > 0 {
        let fewer = known.drop_last();
        lemma_known_prefix(fewer, added, ids);
        assert(all.drop_last() =~= fewer + added);
        assert(all.last() == known[known.len() - 1]);
        assert(with_ids(all, ids) =~= with_ids(fewer + added, ids).push(all.last()));
        assert(turns(with_ids(all, ids)) =~= turns(with_ids(fewer + added, ids)).push(
            turn_of(all.last()),
        ));
        assert(turns(known) =~= turns(fewer).push(turn_of(all.last())));
        assert(turns(with_ids(fewer + added, ids)).len() == fewer.len());
        assert(turns(with_ids(all, ids)) =~= turns(known) + added_turns(all, ids));
    } else {
        assert(turns(with_ids(all, ids)) =~= turns(known) + added_turns(all, ids));
    }
}

/// Reading a session back after a save gives its messages with the ids they
/// were stored under, whole and in order, when the store held the stored ones
/// before. All of them count as stored afterwards, so the same holds of the
/// next turn.
pub proof fn a_saved_conversation_reads_back(
    t: Tables,
    session: Session,
    now: Timestamp,
    ids: Seq<String>,
    known: Seq<Message>,
    added: Seq<Message>,
)
    requires
        consistent(t),
        !session.temporary,
        !name_taken(t.sessions, session.id@, session.name@),
        session.messages@ == known + added,
        forall|i: int| 0 <= i < known.len() ==> (#[trigger] known[i]).stored(),
        forall|i: int|
            0 <= i < added.len() ==> !(#[trigger] added[i]).stored() && ordinary(added[i]),
        fresh_ids(t.messages, ids, added.len() as int),
        conversation(t.messages, session.id@) == turns(known),
    ensures
        ({
            let run = after_all(t, persist_changes(session, now, ids));
            let saved = with_ids(session.messages@, ids);
            &&& run is Some
            &&& conversation(run->0.messages, session.id@) == turns(saved)
            &&& forall|i: int| 0 <= i < saved.len() ==> (#[trigger] saved[i]).stored()
        }),
{
    let saved = with_ids(session.messages@, ids);
    lemma_known_prefix(known, added, ids);
    assert forall|i: int|
        0 <= i < session.messages@.len() && !(
        #[trigger] session.messages@[i]).stored() implies ordinary(session.messages@[i]) by {
        if i >= known.len() {
            assert(session.messages@[i] == added[i - known.len()]);
        } else {
            assert(session.messages@[i] == known[i]);
        }
    }
    lemma_ids_kept(session.messages@, ids);
    match last_user(saved) {
        Some(m) => {
            lemma_last_user_among(saved);
            let at = choose|at: int| 0 <= at < saved.len() && saved[at] == m;
            if session.messages@[at].stored() {
                if at >= known.len() {
                    assert(session.messages@[at] == added[at - known.len()]);
                }
                assert(saved[at] == known[at]);
                assert(turns(known)[at] == turn_of(m));
                lemma_conversation_rows(t.messages, session.id@, at);
                assert forall|i: int|
                    0 <= i < t.messages.len() && (#[trigger] t.messages[i]).turn.id
                        == m.id@ implies t.messages[i].turn.kind != PENDING@ by {
                    let r = choose|r: int|
                        0 <= r < t.messages.len() && (#[trigger] t.messages[r]).turn
                            == conversation(t.messages, session.id@)[at]
                            && t.messages[r].turn.kind != PENDING@;
                    assert(t.messages[r].turn.id == t.messages[i].turn.id);
                    assert(r == i);
                }
            } else {
                lemma_unsaved_at(session.messages@, at);
                let k = unsaved(session.messages@.take(at)) as int;
                assert(m.id == ids[k]);
                assert(!has_message(t.messages, ids[k]@));
            }
        },
        None => {},
    }
    saving_appends_what_is_new(t, session, now, ids);
    lemma_all_stored(session.messages@, ids);
}

proof fn lemma_conversation_rows(messages: Seq<MessageRow>, session_id: Seq<char>, at: int)
    requires
        0 <= at < conversation(messages, session_id).len(),
    ensures
        exists|r: int|
            0 <= r < messages.len() && (#[trigger] messages[r]).turn == conversation(
                messages,
                session_id,
            )[at] && messages[r].turn.kind != PENDING@,
    decreases messages.len(),
{
    let before = messages.drop_last();
    let rest = conversation(before, session_id);
    if at < rest.len() {
        lemma_conversation_rows(before, session_id, at);
        let r = choose|r: int|
            0 <= r < before.len() && (#[trigger] before[r]).turn == rest[at]
                && before[r].turn.kind != PENDING@;
        assert(messages[r].turn == conversation(messages, session_id)[at]);
    } else {
        assert(messages[messages.len() - 1].turn == conversation(messages, session_id)[at]);
    }
}

proof fn lemma_last_user_among(messages: Seq<Message>)
    ensures
        last_user(messages) matches Some(m) ==> exists|at: int|
            0 <= at < messages.len() && messages[at] == m,
    decreases messages.len(),
{
    if messages.len() > 0 {
        let rest = messages.drop_last();
        lemma_last_user_among(rest);
        match last_user(messages) {
            Some(m) => {
                if messages.last().role is User {
                    assert(messages[messages.len() - 1] == m);
                } else {
                    let at = choose|at: int| 0 <= at < rest.len() && rest[at] == m;
                    assert(messages[at] == m);
                }
            },
            None => {},
        }
    }
}

/// The messages with ids differ from the messages in the ids alone.
proof fn lemma_ids_kept(messages: Seq<Message>, ids: Seq<String>)
    ensures
        with_ids(messages, ids).len() == messages.len(),
        forall|i: int|
            0 <= i < messages.len() ==> #[trigger] with_ids(messages, ids)[i] == if messages[i].stored()
                || unsaved(messages.take(i)) >= ids.len() {
                messages[i]
            } else {
                Message { id: ids[unsaved(messages.take(i)) as int], ..messages[i] }
            },
    decreases messages.len(),
{
    if messages.len() > 0 {
        let rest = messages.drop_last();
        lemma_ids_kept(rest, ids);
        assert forall|i: int| 0 <= i < messages.len() implies #[trigger] with_ids(messages, ids)[i]
            == if messages[i].stored() || unsaved(messages.take(i)) >= ids.len() {
            messages[i]
        } else {
            Message { id: ids[unsaved(messages.take(i)) as int], ..messages[i] }
        } by {
            if i < rest.len() {
                assert(rest.take(i) =~= messages.take(i));
                assert(with_ids(messages, ids)[i] == with_ids(rest, ids)[i]);
            } else {
                assert(messages.take(i) =~= rest);
            }
        }
    }
}

proof fn lemma_unsaved_at(messages: Seq<Message>, at: int)
    requires
        0 <= at < messages.len(),
        !messages[at].stored(),
    ensures
        unsaved(messages.take(at)) < unsaved(messages),
    decreases messages.len(),
{
    let rest = messages.drop_last();
    if at < rest.len() {
        lemma_unsaved_at(rest, at);
        assert(rest.take(at) =~= messages.take(at));
    } else {
        assert(messages.take(at) =~= rest);
    }
}

proof fn lemma_all_stored(messages: Seq<Message>, ids: Seq<String>)
    requires
        ids.len() >= unsaved(messages),
        forall|i: int| 0 <= i < unsaved(messages) ==> (#[trigger] ids[i])@.len() > 0,
    ensures
        with_ids(messages, ids).len() == messages.len(),
        forall|i: int|
            0 <= i < messages.len() ==> (#[trigger] with_ids(messages, ids)[i]).stored(),
{
    lemma_ids_kept(messages, ids);
    assert forall|i: int| 0 <= i < messages.len() implies (#[trigger] with_ids(
        messages,
        ids,
    )[i]).stored() by {
        if !messages[i].stored() {
            lemma_unsaved_at(messages, i);
            assert(ids[unsaved(messages.take(i)) as int]@.len() > 0);
        }
    }
}

proof fn lemma_none_unsaved(messages: Seq<Message>)
    requires
        forall|i: int| 0 <= i < messages.len() ==> (#[trigger] messages[i]).stored(),
    ensures
        unsaved(messages) == 0,
    decreases messages.len(),
{
    if messages.len() > 0 {
        assert(forall|i: int| 0 <= i < messages.drop_last().len() ==> messages.drop_last()[i]
            == messages[i]);
        lemma_none_unsaved(messages.drop_last());
        assert(messages[messages.len() - 1].stored());
    }
}

proof fn lemma_no_additions(messages: Seq<Message>, session_id: Seq<char>, ids: Seq<String>)
    requires
        unsaved(messages) == 0,
    ensures
        additions(messages, session_id, ids) == Seq::<Change>::empty(),
    decreases messages.len(),
{
    if messages.len() > 0 {
        lemma_no_additions(messages.drop_last(), session_id, ids);
    }
}

/// Messages are stored once: with the row ids written back, saving again
/// inserts no message, whatever ids are at hand.
pub proof fn a_saved_conversation_is_not_saved_again(
    session: Session,
    ids: Seq<String>,
    again: Session,
    more: Seq<String>,
)
    requires
        ids.len() >= unsaved(session.messages@),
        forall|i: int| 0 <= i < unsaved(session.messages@) ==> (#[trigger] ids[i])@.len() > 0,
        again.messages@ == with_ids(session.messages@, ids),
    ensures
        unsaved(again.messages@) == 0,
        additions(again.messages@, again.id@, more) == Seq::<Change>::empty(),
{
    lemma_all_stored(session.messages@, ids);
    lemma_none_unsaved(again.messages@);
    lemma_no_additions(again.messages@, again.id@, more);
}

/// In a chat whose session is temporary, saving writes nothing, no prompt is
/// written ahead, and the first prompt gives the session no name that it would
/// be stored under.
pub proof fn temporary_sessions_are_never_written(
    chat: InteractiveSession,
    now: Timestamp,
    ids: Seq<String>,
    id: Seq<char>,
    today: Seq<char>,
)
    requires
        chat.session.temporary,
    ensures
        persist_changes(chat.session, now, ids) == Seq::<Change>::empty(),
        write_ahead_changes(chat.session, now, id) == Seq::<Change>::empty(),
        chat.new_name(today) is None,
{
}

// ---------------------------------------------------------------------
// Prompts that are written ahead
// ---------------------------------------------------------------------

/// A prompt that is written ahead is kept by the store but is in no
/// conversation yet; the prompts that were waiting before still are.
pub proof fn a_prompt_written_ahead_can_be_recovered(
    t: Tables,
    session: Session,
    now: Timestamp,
    id: Seq<char>,
)
    requires
        consistent(t),
        !session.temporary,
        ends_in_new_prompt(session),
        !name_taken(t.sessions, session.id@, session.name@),
        !has_message(t.messages, id),
    ensures
        ({
            let run = after_all(t, write_ahead_changes(session, now, id));
            &&& run is Some
            &&& consistent(run->0)
            &&& pending(run->0.messages, session.id@) == pending(t.messages, session.id@).push(
                pending_turn(session.messages@.last(), id),
            )
            &&& forall|s: Seq<char>|
                s != session.id@ ==> #[trigger] pending(run->0.messages, s) == pending(
                    t.messages,
                    s,
                )
            &&& forall|s: Seq<char>| #[trigger]
                conversation(run->0.messages, s) == conversation(t.messages, s)
        }),
{
    lemma_write_ahead(t, session, now, id);
    let run = after_all(t, write_ahead_changes(session, now, id))->0;
    assert(run.messages.drop_last() =~= t.messages);
    writes_keep_the_tables_consistent(t, write_ahead_changes(session, now, id));
}

proof fn lemma_write_ahead(t: Tables, session: Session, now: Timestamp, id: Seq<char>)
    requires
        !session.temporary,
        ends_in_new_prompt(session),
        !name_taken(t.sessions, session.id@, session.name@),
        !has_message(t.messages, id),
    ensures
        ({
            let row = session_row(session, session.name@, now);
            let run = after_all(t, write_ahead_changes(session, now, id));
            &&& run is Some
            &&& run->0.sessions == after(t, Change::UpsertSession(row))->0.sessions
            &&& run->0.messages == t.messages.push(
                MessageRow {
                    session_id: session.id@,
                    turn: pending_turn(session.messages@.last(), id),
                    sequence: next_sequence(t.messages, session.id@),
                },
            )
        }),
{
    let row = session_row(session, session.name@, now);
    let up = Change::UpsertSession(row);
    let put = Change::AddMessage(session.id@, pending_turn(session.messages@.last(), id));
    lemma_upsert(t, row);
    lemma_after_one(t, up);
    let written = after(t, up)->0;
    lemma_after_one(written, put);
    assert(write_ahead_changes(session, now, id) =~= seq![up] + seq![put]);
    lemma_after_all_append(t, seq![up], seq![put]);
}

proof fn lemma_upsert_keeps_name(t: Tables, row: SessionRow, again: SessionRow)
    requires
        !name_taken(t.sessions, row.id, row.name),
        again.id == row.id,
        again.name == row.name,
    ensures
        !name_taken(after(t, Change::UpsertSession(row))->0.sessions, again.id, again.name),
{
    let u = after(t, Change::UpsertSession(row))->0;
    if name_taken(u.sessions, again.id, again.name) {
        let i = choose|i: int|
            0 <= i < u.sessions.len() && (#[trigger] u.sessions[i]).name == again.name
                && u.sessions[i].id != again.id;
        if i < t.sessions.len() {
            assert(t.sessions[i] == u.sessions[i]);
        }
        assert(name_taken(t.sessions, row.id, row.name));
    }
}

/// A turn that completes is stored as it went: the prompt that was written
/// ahead becomes a part of the conversation, followed by the answers, and the
/// prompts that an earlier run left unanswered stay where they were.
pub proof fn a_completed_turn_is_stored(
    t: Tables,
    asked: Session,
    at: Timestamp,
    id: String,
    answered: Session,
    now: Timestamp,
    ids: Seq<String>,
    answers: Seq<Message>,
)
    requires
        consistent(t),
        !asked.temporary,
        ends_in_new_prompt(asked),
        asked.messages@.last().message_type@ == STANDARD@,
        forall|i: int|
            0 <= i < asked.messages@.len() - 1 ==> (#[trigger] asked.messages@[i]).stored(),
        !name_taken(t.sessions, asked.id@, asked.name@),
        id@.len() > 0,
        !has_message(t.messages, id@),
        answered.id == asked.id,
        answered.name == asked.name,
        !answered.temporary,
        answered.messages@ == asked.messages@.drop_last().push(
            Message { id, ..asked.messages@.last() },
        ) + answers,
        forall|i: int|
            0 <= i < answers.len() ==> !(#[trigger] answers[i]).stored() && ordinary(answers[i])
                && !(answers[i].role is User),
        fresh_ids(t.messages, ids, answers.len() as int),
        forall|i: int| 0 <= i < answers.len() ==> (#[trigger] ids[i])@ != id@,
    ensures
        ({
            let waiting = after_all(t, write_ahead_changes(asked, at, id@))->0;
            let run = after_all(waiting, persist_changes(answered, now, ids));
            let prompt = Message { id, ..asked.messages@.last() };
            &&& run is Some
            &&& consistent(run->0)
            &&& conversation(run->0.messages, asked.id@) == conversation(t.messages, asked.id@)
                + seq![turn_of(prompt)] + added_turns(answered.messages@, ids)
            &&& turns(with_ids(answered.messages@, ids)) == turns(asked.messages@.drop_last())
                + seq![turn_of(prompt)] + added_turns(answered.messages@, ids)
            &&& forall|s: Seq<char>| #[trigger]
                pending(run->0.messages, s) == pending(t.messages, s)
        }),
{
    let waiting = after_all(t, write_ahead_changes(asked, at, id@))->0;
    let prompt = Message { id, ..asked.messages@.last() };
    lemma_write_ahead(t, asked, at, id@);
    a_prompt_written_ahead_can_be_recovered(t, asked, at, id@);
    lemma_upsert_keeps_name(
        t,
        session_row(asked, asked.name@, at),
        session_row(answered, answered.name@, now),
    );
    let known = asked.messages@.drop_last().push(prompt);
    assert(forall|i: int| 0 <= i < asked.messages@.len() - 1 ==> known[i] == asked.messages@[i]);
    lemma_known_prefix(known, answers, ids);
    assert forall|i: int|
        0 <= i < answered.messages@.len() && !(
        #[trigger] answered.messages@[i]).stored() implies ordinary(answered.messages@[i]) by {
        if i >= known.len() {
            assert(answered.messages@[i] == answers[i - known.len()]);
        } else {
            assert(answered.messages@[i] == known[i]);
        }
    }
    assert(fresh_ids(waiting.messages, ids, answers.len() as int)) by {
        assert forall|i: int| 0 <= i < answers.len() implies !has_message(
            waiting.messages,
            (#[trigger] ids[i])@,
        ) by {
            if has_message(waiting.messages, ids[i]@) {
                let k = choose|k: int|
                    0 <= k < waiting.messages.len() && (#[trigger] waiting.messages[k]).turn.id
                        == ids[i]@;
                if k < t.messages.len() {
                    assert(t.messages[k] == waiting.messages[k]);
                    assert(has_message(t.messages, ids[i]@));
                }
            }
        }
    }
    lemma_persist(waiting, answered, now, ids);
    lemma_last_user_before(known, answers, ids);
    assert(last_user(with_ids(known + answers, ids)) == Some(prompt));
    let row = session_row(answered, answered.name@, now);
    let written = after(waiting, Change::UpsertSession(row))->0;
    let mid = after_all(written, additions(answered.messages@, answered.id@, ids))->0;
    let run = after_all(waiting, persist_changes(answered, now, ids))->0;
    let n = t.messages.len() as int;
    let kept = with_kind(waiting.messages[n], STANDARD@);
    let tail = mid.messages.skip(n + 1);
    assert(mid.messages.take(n + 1) =~= waiting.messages);
    assert(mid.messages =~= waiting.messages + tail);
    assert(run.messages =~= t.messages.push(kept) + tail) by {
        assert forall|i: int| 0 <= i < mid.messages.len() implies run.messages[i]
            == (t.messages.push(kept) + tail)[i] by {
            assert(run.messages[i] == promoted(mid.messages, id@)[i]);
            if i < n {
                assert(mid.messages[i] == waiting.messages[i]);
                assert(mid.messages[i] == t.messages[i]);
                assert(t.messages[i].turn.id != id@);
            } else if i == n {
                assert(mid.messages[i] == waiting.messages[i]);
            } else {
                assert(mid.messages[i].turn.kind != PENDING@);
            }
        }
    }
    lemma_reads_append(waiting.messages, tail, asked.id@);
    lemma_reads_append(t.messages.push(kept), tail, asked.id@);
    assert(t.messages.push(kept).drop_last() =~= t.messages);
    reveal_strlit("pending");
    reveal_strlit("standard");
    reveal_strlit("duplicate");
    assert(STANDARD@.len() != PENDING@.len());
    assert(STANDARD@.len() != DUPLICATE@.len());
    assert(in_conversation(kept, asked.id@));
    assert(kept.turn == turn_of(prompt));
    let said = added_turns(answered.messages@, ids);
    assert(conversation(mid.messages, asked.id@) == conversation(waiting.messages, asked.id@)
        + said);
    assert(conversation(tail, asked.id@) =~= said) by {
        let front = conversation(waiting.messages, asked.id@);
        assert((front + conversation(tail, asked.id@)).skip(front.len() as int) =~= conversation(
            tail,
            asked.id@,
        ));
        assert((front + said).skip(front.len() as int) =~= said);
    }
    assert(conversation(run.messages, asked.id@) =~= conversation(t.messages, asked.id@) + seq![
        turn_of(prompt),
    ] + said);
    assert(turns(known) =~= turns(asked.messages@.drop_last()) + seq![turn_of(prompt)]);
    assert forall|s: Seq<char>| #[trigger] pending(run.messages, s) == pending(
        t.messages,
        s,
    ) by {
        lemma_reads_append(waiting.messages, tail, s);
        lemma_reads_append(t.messages.push(kept), tail, s);
        assert(pending(mid.messages, s) == pending(waiting.messages, s));
        lemma_nothing_pending(tail, s);
        assert(pending(t.messages.push(kept), s) == pending(t.messages, s));
        assert(pending(t.messages, s) + Seq::<Turn>::empty() =~= pending(t.messages, s));
    }
    writes_keep_the_tables_consistent(waiting, persist_changes(answered, now, ids));
}

proof fn lemma_nothing_pending(messages: Seq<MessageRow>, session_id: Seq<char>)
    requires
        forall|i: int| 0 <= i < messages.len() ==> (#[trigger] messages[i]).turn.kind != PENDING@,
    ensures
        pending(messages, session_id) == Seq::<Turn>::empty(),
    decreases messages.len(),
{
    if messages.len() > 0 {
        assert(forall|i: int| 0 <= i < messages.drop_last().len() ==> messages.drop_last()[i]
            == messages[i]);
        lemma_nothing_pending(messages.drop_last(), session_id);
        assert(messages[messages.len() - 1].turn.kind != PENDING@);
    }
}

proof fn lemma_last_user_before(known: Seq<Message>, answers: Seq<Message>, ids: Seq<String>)
    requires
        known.len() > 0,
        known.last().stored(),
        known.last().role is User,
        forall|i: int|
            0 <= i < answers.len() ==> !(#[trigger] answers[i]).stored() && !(
            answers[i].role is User),
    ensures
        last_user(with_ids(known + answers, ids)) == Some(known.last()),
    decreases answers.len(),
{
    let all = known + answers;
    if answers.len() > 0 {
        let fewer = answers.drop_last();
        lemma_last_user_before(known, fewer, ids);
        assert(all.drop_last() =~= known + fewer);
        assert(all.last() == answers[answers.len() - 1]);
        assert(with_ids(all, ids).drop_last() =~= with_ids(known + fewer, ids));
    } else {
        assert(all =~= known);
    }
}

// ---------------------------------------------------------------------
// Opening, renaming, discarding
// ---------------------------------------------------------------------

/// Opening a new name makes exactly one session current: the new one, which a
/// look-up by that name then finds.
pub proof fn a_new_session_is_the_current_one(
    t: Tables,
    id: Seq<char>,
    name: Seq<char>,
    now: Timestamp,
)
    requires
        consistent(t),
        !has_session(t.sessions, id),
        !has_name(t.sessions, name),
    ensures
        ({
            let row = SessionRow { id, name, last_used_at: now, current: true };
            let run = after_all(
                t,
                seq![Change::RemoveCurrentFromAll, Change::AddSession(row)],
            );
            &&& run is Some
            &&& consistent(run->0)
            &&& run->0.messages == t.messages
            &&& run->0.sessions.len() == t.sessions.len() + 1
            &&& run->0.sessions.last() == row
            &&& forall|i: int|
                0 <= i < t.sessions.len() ==> !(#[trigger] run->0.sessions[i]).current
                    && run->0.sessions[i].name != name
        }),
{
    let row = SessionRow { id, name, last_used_at: now, current: true };
    let clear = Change::RemoveCurrentFromAll;
    let list = seq![clear, Change::AddSession(row)];
    let mid = after(t, clear)->0;
    assert forall|i: int| 0 <= i < mid.sessions.len() implies (#[trigger] mid.sessions[i]).id
        == t.sessions[i].id && mid.sessions[i].name == t.sessions[i].name by {}
    assert(!has_session(mid.sessions, id)) by {
        if has_session(mid.sessions, id) {
            let i = choose|i: int|
                0 <= i < mid.sessions.len() && (#[trigger] mid.sessions[i]).id == id;
            assert(t.sessions[i].id == id);
        }
    }
    assert(!has_name(mid.sessions, name)) by {
        if has_name(mid.sessions, name) {
            let i = choose|i: int|
                0 <= i < mid.sessions.len() && (#[trigger] mid.sessions[i]).name == name;
            assert(t.sessions[i].name == name);
        }
    }
    lemma_after_one(t, clear);
    lemma_after_one(mid, Change::AddSession(row));
    assert(list =~= seq![clear] + seq![Change::AddSession(row)]);
    lemma_after_all_append(t, seq![clear], seq![Change::AddSession(row)]);
    let run = after_all(t, list)->0;
    assert forall|i: int| 0 <= i < t.sessions.len() implies !(
    #[trigger] run.sessions[i]).current && run.sessions[i].name != name by {
        assert(run.sessions[i] == mid.sessions[i]);
        assert(t.sessions[i].name == run.sessions[i].name);
    }
    writes_keep_the_tables_consistent(t, list);
}

/// The store refuses a name exactly when the session that has it is a
/// different one, which is when a rename is refused.
pub proof fn a_rename_is_refused_exactly_when_the_name_is_taken(
    t: Tables,
    row: SessionRow,
    holder: int,
)
    requires
        consistent(t),
        has_name(t.sessions, row.name) ==> 0 <= holder < t.sessions.len()
            && t.sessions[holder].name == row.name,
    ensures
        after(t, Change::UpsertSession(row)) is None <==> has_name(t.sessions, row.name)
            && t.sessions[holder].id != row.id,
{
    if name_taken(t.sessions, row.id, row.name) {
        let i = choose|i: int|
            0 <= i < t.sessions.len() && (#[trigger] t.sessions[i]).name == row.name
                && t.sessions[i].id != row.id;
        assert(has_name(t.sessions, row.name));
        assert(t.sessions[i].name == t.sessions[holder].name);
        assert(i == holder);
    }
}

/// After a rename the session is found under its new name and no session is
/// found under the old one.
pub proof fn a_renamed_session_leaves_its_old_name(t: Tables, at: int, row: SessionRow)
    requires
        consistent(t),
        0 <= at < t.sessions.len(),
        t.sessions[at].id == row.id,
        t.sessions[at].name != row.name,
        !name_taken(t.sessions, row.id, row.name),
    ensures
        ({
            let run = after(t, Change::UpsertSession(row));
            &&& run is Some
            &&& consistent(run->0)
            &&& run->0.messages == t.messages
            &&& run->0.sessions[at] == row
            &&& !has_name(run->0.sessions, t.sessions[at].name)
        }),
{
    let u = after(t, Change::UpsertSession(row))->0;
    assert(has_session(t.sessions, row.id));
    if has_name(u.sessions, t.sessions[at].name) {
        let i = choose|i: int|
            0 <= i < u.sessions.len() && (#[trigger] u.sessions[i]).name == t.sessions[at].name;
        assert(u.sessions[i] == replaced(t.sessions, row)[i]);
        if t.sessions[i].id != row.id {
            assert(t.sessions[i].name == t.sessions[at].name);
            assert(i == at);
        }
    }
    every_write_keeps_the_tables_consistent(t, Change::UpsertSession(row));
}

proof fn lemma_reads_without(messages: Seq<MessageRow>, gone: Seq<char>, s: Seq<char>)
    ensures
        s != gone ==> conversation(
            messages.filter(|row: MessageRow| row.session_id != gone),
            s,
        ) == conversation(messages, s),
        s != gone ==> pending(messages.filter(|row: MessageRow| row.session_id != gone), s)
            == pending(messages, s),
        s == gone ==> conversation(
            messages.filter(|row: MessageRow| row.session_id != gone),
            s,
        ) == Seq::<Turn>::empty(),
        s == gone ==> pending(messages.filter(|row: MessageRow| row.session_id != gone), s)
            == Seq::<Turn>::empty(),
    decreases messages.len(),
{
    reveal(Seq::filter);
    let keep = |row: MessageRow| row.session_id != gone;
    if messages.len() > 0 {
        lemma_reads_without(messages.drop_last(), gone, s);
        if keep(messages.last()) {
            assert(messages.filter(keep).drop_last() =~= messages.drop_last().filter(keep));
        }
    }
}

/// Discarding a session that holds no message and no unanswered prompt takes
/// nothing that anybody said from any session.
pub proof fn discarding_an_empty_session_loses_nothing(t: Tables, id: Seq<char>, s: Seq<char>)
    requires
        conversation(t.messages, id).len() == 0,
        pending(t.messages, id).len() == 0,
    ensures
        ({
            let run = after(t, Change::DeleteSession(id));
            &&& run is Some
            &&& conversation(run->0.messages, s) == conversation(t.messages, s)
            &&& pending(run->0.messages, s) == pending(t.messages, s)
        }),
{
    lemma_reads_without(t.messages, id, s);
    if s == id {
        assert(conversation(t.messages, s) =~= Seq::<Turn>::empty());
        assert(pending(t.messages, s) =~= Seq::<Turn>::empty());
    }
}

} // verus!
