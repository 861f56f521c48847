//! The statements behind the messages table.

#[allow(unused_imports)]
use crate::repository::statement::{cells, optional_cell, text_cell, Cell};
use crate::repository::statement::{
    optional_text, text, text_at, text_params, BadColumn, Statement, Value,
};
use crate::session::entity::MessageEntity;
use crate::session::model::STANDARD;
use crate::text::chars_of;
use vstd::prelude::*;
use vstd::string::*;

verus! {

/// A user turn written to disk before the provider call, so a dropped
/// connection cannot swallow what the user typed. Promoted to `standard` by the
/// save that ends its turn; excluded from conversation reads until then.
pub const PENDING: &'static str = "pending";

/// A row that repair identified as a re-insert of an earlier message. Marked
/// rather than deleted: the text stays in the database, out of the
/// conversation, and undoing the repair puts it back.
pub const DUPLICATE: &'static str = "duplicate";

pub const FETCH_MESSAGES: &'static str =
    "SELECT id, session_id, role, content, message_type, compaction_metadata FROM messages WHERE session_id = ?1 AND message_type NOT IN (?2, ?3) ORDER BY sequence, rowid";

pub const ADD_MESSAGE: &'static str =
    "INSERT INTO messages (id, session_id, role, content, message_type, compaction_metadata, sequence) VALUES (?1, ?2, ?3, ?4, ?5, ?6, (SELECT COALESCE(MAX(sequence), 0) + 1 FROM messages WHERE session_id = ?2))";

pub const COUNT_MESSAGES: &'static str =
    "SELECT COUNT(*) FROM messages WHERE session_id = ?1 AND message_type NOT IN (?2, ?3)";

pub const FETCH_FIRST_USER_MESSAGE: &'static str =
    "SELECT content FROM messages WHERE session_id = ?1 AND role = 'user' AND message_type NOT IN (?2, ?3) ORDER BY sequence, rowid LIMIT 1";

pub const PROMOTE_MESSAGE: &'static str =
    "UPDATE messages SET message_type = 'standard' WHERE id = ?1 AND message_type = ?2";

pub const FETCH_PENDING: &'static str =
    "SELECT content FROM messages WHERE session_id = ?1 AND message_type = ?2 ORDER BY sequence, rowid";

pub const DISCARD_PENDING: &'static str =
    "DELETE FROM messages WHERE session_id = ?1 AND message_type = ?2";

pub const FETCH_CONVERSATION_ROWS: &'static str =
    "SELECT id, role, content, message_type FROM messages WHERE session_id = ?1 AND message_type != ?2 ORDER BY sequence, rowid";

pub const MARK_DUPLICATE: &'static str = "UPDATE messages SET message_type = ?1 WHERE id = ?2";

pub const RESTORE_DUPLICATES: &'static str =
    "UPDATE messages SET message_type = 'standard' WHERE message_type = ?1";

pub const SEARCH_MESSAGES: &'static str =
    "SELECT s.name, m.role, m.content FROM messages m JOIN sessions s ON s.id = m.session_id WHERE m.content LIKE ?1 ESCAPE '\\' AND m.message_type NOT IN (?2, ?3) ORDER BY s.last_used_at DESC, m.sequence LIMIT ?4";

/// A stored message row as repair needs to see it, duplicates included.
#[derive(Debug)]
pub struct StoredRow {
    pub id: String,
    pub role: String,
    pub content: String,
    pub message_type: String,
}

/// One hit from a full-conversation content search.
#[derive(Debug)]
pub struct MessageMatch {
    pub session_name: String,
    pub role: String,
    pub content: String,
}

// ---------------------------------------------------------------------
// Statements
// ---------------------------------------------------------------------

fn one_text(a: &str) -> (r: Vec<Value>)
    ensures
        cells(r@) == seq![Cell::Text(a@)],
{
    let r = text_params(&vec![a]);
    assert(cells(r@) =~= seq![Cell::Text(a@)]);
    r
}

fn two_texts(a: &str, b: &str) -> (r: Vec<Value>)
    ensures
        cells(r@) == seq![Cell::Text(a@), Cell::Text(b@)],
{
    let r = text_params(&vec![a, b]);
    assert(cells(r@) =~= seq![Cell::Text(a@), Cell::Text(b@)]);
    r
}

fn three_texts(a: &str, b: &str, c: &str) -> (r: Vec<Value>)
    ensures
        cells(r@) == seq![Cell::Text(a@), Cell::Text(b@), Cell::Text(c@)],
{
    let r = text_params(&vec![a, b, c]);
    assert(cells(r@) =~= seq![Cell::Text(a@), Cell::Text(b@), Cell::Text(c@)]);
    r
}

pub fn fetch_messages_for_session(session_id: &str) -> (r: Statement)
    ensures
        r.is(
            FETCH_MESSAGES@,
            seq![Cell::Text(session_id@), Cell::Text(PENDING@), Cell::Text(DUPLICATE@)],
        ),
{
    Statement::new(FETCH_MESSAGES, three_texts(session_id, PENDING, DUPLICATE))
}

/// The parameters that write a message row.
pub open spec fn message_cells(m: MessageEntity) -> Seq<Cell> {
    seq![
        Cell::Text(m.id@),
        Cell::Text(m.session_id@),
        Cell::Text(m.role@),
        Cell::Text(m.content@),
        Cell::Text(m.message_type@),
        optional_cell(m.compaction_metadata),
    ]
}

/// A new row, numbered after every row the session already has.
pub fn add_message_to_session(message: &MessageEntity) -> (r: Statement)
    ensures
        r.is(ADD_MESSAGE@, message_cells(*message)),
{
    let mut params: Vec<Value> = Vec::new();
    params.push(text(message.id.as_str()));
    params.push(text(message.session_id.as_str()));
    params.push(text(message.role.as_str()));
    params.push(text(message.content.as_str()));
    params.push(text(message.message_type.as_str()));
    params.push(optional_text(&message.compaction_metadata));
    assert(cells(params@) =~= message_cells(*message));
    Statement::new(ADD_MESSAGE, params)
}

pub fn count_messages_for_session(session_id: &str) -> (r: Statement)
    ensures
        r.is(
            COUNT_MESSAGES@,
            seq![Cell::Text(session_id@), Cell::Text(PENDING@), Cell::Text(DUPLICATE@)],
        ),
{
    Statement::new(COUNT_MESSAGES, three_texts(session_id, PENDING, DUPLICATE))
}

pub fn fetch_first_user_message(session_id: &str) -> (r: Statement)
    ensures
        r.is(
            FETCH_FIRST_USER_MESSAGE@,
            seq![Cell::Text(session_id@), Cell::Text(PENDING@), Cell::Text(DUPLICATE@)],
        ),
{
    Statement::new(FETCH_FIRST_USER_MESSAGE, three_texts(session_id, PENDING, DUPLICATE))
}

pub fn promote_message(message_id: &str) -> (r: Statement)
    ensures
        r.is(PROMOTE_MESSAGE@, seq![Cell::Text(message_id@), Cell::Text(PENDING@)]),
{
    Statement::new(PROMOTE_MESSAGE, two_texts(message_id, PENDING))
}

pub fn fetch_pending_messages(session_id: &str) -> (r: Statement)
    ensures
        r.is(FETCH_PENDING@, seq![Cell::Text(session_id@), Cell::Text(PENDING@)]),
{
    Statement::new(FETCH_PENDING, two_texts(session_id, PENDING))
}

pub fn discard_pending_messages(session_id: &str) -> (r: Statement)
    ensures
        r.is(DISCARD_PENDING@, seq![Cell::Text(session_id@), Cell::Text(PENDING@)]),
{
    Statement::new(DISCARD_PENDING, two_texts(session_id, PENDING))
}

pub fn fetch_conversation_rows(session_id: &str) -> (r: Statement)
    ensures
        r.is(FETCH_CONVERSATION_ROWS@, seq![Cell::Text(session_id@), Cell::Text(PENDING@)]),
{
    Statement::new(FETCH_CONVERSATION_ROWS, two_texts(session_id, PENDING))
}

/// One statement for each id, all of them one transaction.
pub fn mark_duplicates(ids: &Vec<String>) -> (r: Vec<Statement>)
    ensures
        r@.len() == ids@.len(),
        forall|i: int|
            0 <= i < ids@.len() ==> (#[trigger] r@[i]).is(
                MARK_DUPLICATE@,
                seq![Cell::Text(DUPLICATE@), Cell::Text(ids@[i]@)],
            ),
{
    let mut r: Vec<Statement> = Vec::new();
    for i in 0..ids.len()
        invariant
            r@.len() == i,
            forall|k: int|
                0 <= k < i ==> (#[trigger] r@[k]).is(
                    MARK_DUPLICATE@,
                    seq![Cell::Text(DUPLICATE@), Cell::Text(ids@[k]@)],
                ),
    {
        r.push(Statement::new(MARK_DUPLICATE, two_texts(DUPLICATE, ids[i].as_str())));
    }
    r
}

pub fn restore_duplicates() -> (r: Statement)
    ensures
        r.is(RESTORE_DUPLICATES@, seq![Cell::Text(DUPLICATE@)]),
{
    Statement::new(RESTORE_DUPLICATES, one_text(DUPLICATE))
}

/// The pattern that finds a query anywhere in a text.
pub open spec fn like_pattern(query: Seq<char>) -> Seq<char> {
    "%"@ + escaped(query) + "%"@
}

pub fn search_messages(query: &str, limit: usize) -> (r: Statement)
    ensures
        r.is(
            SEARCH_MESSAGES@,
            seq![
                Cell::Text(like_pattern(query@)),
                Cell::Text(PENDING@),
                Cell::Text(DUPLICATE@),
                Cell::Integer((limit as i64) as int),
            ],
        ),
{
    let mut pattern = "%".to_owned();
    pattern.append(escape_like(query).as_str());
    pattern.append("%");
    let mut params = three_texts(pattern.as_str(), PENDING, DUPLICATE);
    let ghost before = params@;
    let cap: i64 = #[verifier::truncate] (limit as i64);
    params.push(Value::Integer(cap));
    assert(cells(params@) =~= cells(before).push(Cell::Integer((limit as i64) as int)));
    assert(cells(params@) =~= seq![
        Cell::Text(like_pattern(query@)),
        Cell::Text(PENDING@),
        Cell::Text(DUPLICATE@),
        Cell::Integer((limit as i64) as int),
    ]);
    Statement::new(SEARCH_MESSAGES, params)
}

// ---------------------------------------------------------------------
// Patterns
// ---------------------------------------------------------------------

/// A character that means itself in a pattern.
pub open spec fn escaped_char(c: char) -> Seq<char> {
    if c == '\\' || c == '%' || c == '_' {
        seq!['\\', c]
    } else {
        seq![c]
    }
}

/// A query in which every character means itself.
pub open spec fn escaped(query: Seq<char>) -> Seq<char>
    decreases query.len(),
{
    if query.len() == 0 {
        Seq::empty()
    } else {
        escaped_char(query[0]) + escaped(query.drop_first())
    }
}

/// LIKE treats `%` and `_` as wildcards; a user searching for "100%" means
/// the literal characters.
pub fn escape_like(query: &str) -> (out: String)
    ensures
        out@ == escaped(query@),
{
    let chars = chars_of(query);
    let mut out = String::new();
    assert(query@.skip(0) =~= query@);
    assert(out@ + escaped(query@.skip(0)) =~= escaped(query@));
    for i in 0..chars.len()
        invariant
            chars@ == query@,
            out@ + escaped(query@.skip(i as int)) == escaped(query@),
    {
        let c = chars[i];
        let ghost before = out@;
        assert(query@.skip(i as int).drop_first() =~= query@.skip(i + 1));
        if c == '\\' || c == '%' || c == '_' {
            out.push('\\');
        }
        out.push(c);
        assert(out@ =~= before + escaped_char(c));
        assert(out@ + escaped(query@.skip(i + 1)) =~= before + (escaped_char(c) + escaped(
            query@.skip(i + 1),
        )));
    }
    assert(query@.skip(query@.len() as int) =~= Seq::<char>::empty());
    assert(out@ =~= escaped(query@));
    out
}

/// A pattern is made of a query piece by piece.
pub proof fn a_query_is_escaped_piece_by_piece(a: Seq<char>, b: Seq<char>)
    ensures
        escaped(a + b) == escaped(a) + escaped(b),
    decreases a.len(),
{
    if a.len() == 0 {
        assert(a + b =~= b);
        assert(escaped(a) + escaped(b) =~= escaped(b));
    } else {
        a_query_is_escaped_piece_by_piece(a.drop_first(), b);
        assert((a + b).drop_first() =~= a.drop_first() + b);
        assert(escaped(a + b) =~= escaped(a) + escaped(b));
    }
}

/// The characters that an escaped text stands for: a backslash gives way to
/// the character behind it.
pub open spec fn unescaped(pattern: Seq<char>) -> Seq<char>
    decreases pattern.len(),
{
    if pattern.len() == 0 {
        Seq::empty()
    } else if pattern[0] == '\\' && pattern.len() > 1 {
        seq![pattern[1]] + unescaped(pattern.skip(2))
    } else {
        seq![pattern[0]] + unescaped(pattern.skip(1))
    }
}

/// An escaped query reads back as the query, so that no two queries make the
/// same pattern.
pub proof fn an_escaped_query_reads_back(query: Seq<char>)
    ensures
        unescaped(escaped(query)) == query,
    decreases query.len(),
{
    let pattern = escaped(query);
    if query.len() > 0 {
        let c = query[0];
        let rest = query.drop_first();
        an_escaped_query_reads_back(rest);
        if c == '\\' || c == '%' || c == '_' {
            assert(pattern[0] == '\\' && pattern[1] == c);
            assert(pattern.skip(2) =~= escaped(rest));
        } else {
            assert(pattern[0] == c);
            assert(pattern.skip(1) =~= escaped(rest));
        }
        assert(seq![c] + rest =~= query);
    } else {
        assert(unescaped(pattern) =~= query);
    }
}

/// Two characters that LIKE takes for the same: equal, or one ASCII letter in
/// both cases.
pub open spec fn alike(a: char, b: char) -> bool {
    ||| a == b
    ||| 'a' <= a <= 'z' && b as int == a as int - 32
    ||| 'a' <= b <= 'z' && a as int == b as int - 32
}

/// What `text LIKE pattern ESCAPE '\'` means.
pub open spec fn like(pattern: Seq<char>, text: Seq<char>) -> bool
    decreases pattern.len() + text.len(),
{
    if pattern.len() == 0 {
        text.len() == 0
    } else if pattern[0] == '%' {
        ||| like(pattern.drop_first(), text)
        ||| text.len() > 0 && like(pattern, text.drop_first())
    } else if pattern[0] == '\\' {
        &&& pattern.len() > 1
        &&& text.len() > 0
        &&& alike(pattern[1], text[0])
        &&& like(pattern.skip(2), text.drop_first())
    } else {
        &&& text.len() > 0
        &&& pattern[0] == '_' || alike(pattern[0], text[0])
        &&& like(pattern.drop_first(), text.drop_first())
    }
}

/// The query stands in the text at `at`, up to the case of ASCII letters.
pub open spec fn mentioned_at(query: Seq<char>, text: Seq<char>, at: int) -> bool {
    &&& 0 <= at
    &&& at + query.len() <= text.len()
    &&& forall|k: int| 0 <= k < query.len() ==> alike(#[trigger] query[k], text[at + k])
}

proof fn lemma_like_anything(text: Seq<char>)
    ensures
        like(seq!['%'], text),
    decreases text.len(),
{
    assert(seq!['%'].drop_first() =~= Seq::<char>::empty());
    if text.len() > 0 {
        lemma_like_anything(text.drop_first());
    } else {
        assert(like(seq!['%'].drop_first(), text));
    }
}

proof fn lemma_like_prefix(query: Seq<char>, text: Seq<char>)
    ensures
        like(escaped(query) + seq!['%'], text) <==> mentioned_at(query, text, 0),
    decreases query.len(),
{
    let pattern = escaped(query) + seq!['%'];
    if query.len() == 0 {
        assert(pattern =~= seq!['%']);
        lemma_like_anything(text);
    } else {
        let c = query[0];
        let rest = query.drop_first();
        let tail = escaped(rest) + seq!['%'];
        if text.len() > 0 {
            lemma_like_prefix(rest, text.drop_first());
        }
        if c == '\\' || c == '%' || c == '_' {
            assert(pattern[0] == '\\' && pattern[1] == c);
            assert(pattern.skip(2) =~= tail);
        } else {
            assert(pattern[0] == c);
            assert(pattern.drop_first() =~= tail);
        }
        if mentioned_at(query, text, 0) {
            assert(alike(query[0], text[0int + 0int]));
            assert forall|k: int| 0 <= k < rest.len() implies alike(
                #[trigger] rest[k],
                text.drop_first()[0 + k],
            ) by {
                assert(alike(query[k + 1], text[0 + (k + 1)]));
            }
        }
        if text.len() > 0 && alike(c, text[0]) && mentioned_at(rest, text.drop_first(), 0) {
            assert forall|k: int| 0 <= k < query.len() implies alike(
                #[trigger] query[k],
                text[0 + k],
            ) by {
                if k > 0 {
                    assert(alike(rest[k - 1], text.drop_first()[0 + (k - 1)]));
                }
            }
        }
    }
}

/// Searching means the literal characters: the pattern made of a query
/// matches exactly the texts that mention it.
pub proof fn search_finds_the_literal_text(query: Seq<char>, text: Seq<char>)
    ensures
        like(like_pattern(query), text) <==> exists|at: int| #[trigger]
            mentioned_at(query, text, at),
    decreases text.len(),
{
    reveal_strlit("%");
    let pattern = like_pattern(query);
    let tail = escaped(query) + seq!['%'];
    assert("%"@ =~= seq!['%']);
    assert(pattern[0] == '%');
    assert(pattern.drop_first() =~= tail);
    lemma_like_prefix(query, text);
    if text.len() > 0 {
        search_finds_the_literal_text(query, text.drop_first());
        let rest = text.drop_first();
        assert forall|at: int| #[trigger] mentioned_at(query, text, at) && at > 0 implies mentioned_at(
            query,
            rest,
            at - 1,
        ) by {
            assert forall|k: int| 0 <= k < query.len() implies alike(
                #[trigger] query[k],
                rest[at - 1 + k],
            ) by {
                assert(alike(query[k], text[at + k]));
            }
        }
        assert forall|at: int| #[trigger] mentioned_at(query, rest, at) implies mentioned_at(
            query,
            text,
            at + 1,
        ) by {
            assert forall|k: int| 0 <= k < query.len() implies alike(
                #[trigger] query[k],
                text[at + 1 + k],
            ) by {
                assert(alike(query[k], rest[at + k]));
            }
        }
        if exists|at: int| #[trigger] mentioned_at(query, text, at) {
            let at = choose|at: int| #[trigger] mentioned_at(query, text, at);
            if at > 0 {
                assert(mentioned_at(query, rest, at - 1));
            }
        }
        if exists|at: int| #[trigger] mentioned_at(query, rest, at) {
            let at = choose|at: int| #[trigger] mentioned_at(query, rest, at);
            assert(mentioned_at(query, text, at + 1));
        }
    } else {
        assert forall|at: int| #[trigger] mentioned_at(query, text, at) implies at == 0 by {}
    }
}

// ---------------------------------------------------------------------
// Rows
// ---------------------------------------------------------------------

/// The message row in a list of columns. A missing kind reads as an ordinary
/// message, missing metadata as none.
pub fn row_to_message_entity(row: &Vec<Value>) -> (r: Result<MessageEntity, BadColumn>)
    ensures
        ({
            let c = cells(row@);
            match r {
                Ok(m) => {
                    &&& text_cell(c, 0) == Some(m.id@)
                    &&& text_cell(c, 1) == Some(m.session_id@)
                    &&& text_cell(c, 2) == Some(m.role@)
                    &&& text_cell(c, 3) == Some(m.content@)
                    &&& m.message_type@ == match text_cell(c, 4) {
                        Some(s) => s,
                        None => STANDARD@,
                    }
                    &&& match m.compaction_metadata {
                        Some(s) => text_cell(c, 5) == Some(s@),
                        None => text_cell(c, 5) is None,
                    }
                },
                Err(BadColumn(i)) => {
                    &&& i < 4
                    &&& text_cell(c, i as int) is None
                    &&& forall|k: int| 0 <= k < i ==> #[trigger] text_cell(c, k) is Some
                },
            }
        }),
{
    let id = match text_at(row, 0) {
        Some(s) => s,
        None => return Err(BadColumn(0)),
    };
    let session_id = match text_at(row, 1) {
        Some(s) => s,
        None => return Err(BadColumn(1)),
    };
    let role = match text_at(row, 2) {
        Some(s) => s,
        None => return Err(BadColumn(2)),
    };
    let content = match text_at(row, 3) {
        Some(s) => s,
        None => return Err(BadColumn(3)),
    };
    let message_type = match text_at(row, 4) {
        Some(s) => s,
        None => STANDARD.to_owned(),
    };
    let compaction_metadata = text_at(row, 5);
    Ok(
        MessageEntity::new_with_type(
            id,
            session_id,
            role,
            content,
            message_type,
            compaction_metadata,
        ),
    )
}

/// The row repair looks at, from its four columns.
pub fn row_to_stored_row(row: &Vec<Value>) -> (r: Result<StoredRow, BadColumn>)
    ensures
        ({
            let c = cells(row@);
            match r {
                Ok(s) => {
                    &&& text_cell(c, 0) == Some(s.id@)
                    &&& text_cell(c, 1) == Some(s.role@)
                    &&& text_cell(c, 2) == Some(s.content@)
                    &&& text_cell(c, 3) == Some(s.message_type@)
                },
                Err(BadColumn(i)) => {
                    &&& i < 4
                    &&& text_cell(c, i as int) is None
                    &&& forall|k: int| 0 <= k < i ==> #[trigger] text_cell(c, k) is Some
                },
            }
        }),
{
    let id = match text_at(row, 0) {
        Some(s) => s,
        None => return Err(BadColumn(0)),
    };
    let role = match text_at(row, 1) {
        Some(s) => s,
        None => return Err(BadColumn(1)),
    };
    let content = match text_at(row, 2) {
        Some(s) => s,
        None => return Err(BadColumn(2)),
    };
    match text_at(row, 3) {
        Some(message_type) => Ok(StoredRow { id, role, content, message_type }),
        None => Err(BadColumn(3)),
    }
}

/// The search hit in a list of columns.
pub fn row_to_match(row: &Vec<Value>) -> (r: Result<MessageMatch, BadColumn>)
    ensures
        ({
            let c = cells(row@);
            match r {
                Ok(m) => {
                    &&& text_cell(c, 0) == Some(m.session_name@)
                    &&& text_cell(c, 1) == Some(m.role@)
                    &&& text_cell(c, 2) == Some(m.content@)
                },
                Err(BadColumn(i)) => {
                    &&& i < 3
                    &&& text_cell(c, i as int) is None
                    &&& forall|k: int| 0 <= k < i ==> #[trigger] text_cell(c, k) is Some
                },
            }
        }),
{
    let session_name = match text_at(row, 0) {
        Some(s) => s,
        None => return Err(BadColumn(0)),
    };
    let role = match text_at(row, 1) {
        Some(s) => s,
        None => return Err(BadColumn(1)),
    };
    match text_at(row, 2) {
        Some(content) => Ok(MessageMatch { session_name, role, content }),
        None => Err(BadColumn(2)),
    }
}

/// The only text of a row.
pub fn row_to_text(row: &Vec<Value>) -> (r: Result<String, BadColumn>)
    ensures
        match r {
            Ok(s) => text_cell(cells(row@), 0) == Some(s@),
            Err(BadColumn(i)) => i == 0 && text_cell(cells(row@), 0) is None,
        },
{
    match text_at(row, 0) {
        Some(s) => Ok(s),
        None => Err(BadColumn(0)),
    }
}

} // verus!
