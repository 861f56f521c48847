//! The tables of the store, and how those of an older program are brought up
//! to date.
//!
//! A migration is a list of steps. Each step reads something of the store and
//! decides on the changes that are still missing.

use crate::repository::statement::{
    no_params, text_at, text_params, BadColumn, Statement, Value,
};
#[allow(unused_imports)]
use crate::repository::statement::{cells, text_cell, Cell};
use crate::text::{concat, contains, equal_ignoring_case, long_decimal_text, same};
#[allow(unused_imports)]
use crate::text::{decimal, has_part, lemma_decimal_injective, same_but_for_case, texts};
use vstd::prelude::*;

verus! {

/// How long to wait for another program that holds the write lock.
pub const BUSY_TIMEOUT_SECONDS: u64 = 10;

pub const CREATE_MESSAGES: &'static str =
    "CREATE TABLE IF NOT EXISTS messages (id TEXT NOT NULL PRIMARY KEY, session_id TEXT NOT NULL, role TEXT NOT NULL, content TEXT NOT NULL)";

pub const CREATE_CONFIG: &'static str =
    "CREATE TABLE IF NOT EXISTS config (id INTEGER PRIMARY KEY, key TEXT NOT NULL, value TEXT NOT NULL)";

pub const CREATE_SESSIONS: &'static str =
    "CREATE TABLE IF NOT EXISTS sessions (id TEXT NOT NULL, name TEXT NOT NULL, expires_at TEXT NOT NULL, current INTEGER NOT NULL DEFAULT 0)";

// conversation_branches declares a foreign key on sessions(id); without a
// unique index on id, every branch insert is rejected with "foreign key
// mismatch".
pub const INDEX_SESSION_IDS: &'static str =
    "CREATE UNIQUE INDEX IF NOT EXISTS idx_sessions_id ON sessions (id)";

pub const CREATE_BRANCHES: &'static str =
    "CREATE TABLE IF NOT EXISTS conversation_branches (id TEXT PRIMARY KEY, session_id TEXT NOT NULL, parent_branch_id TEXT, branch_name TEXT, description TEXT, created_at DATETIME DEFAULT CURRENT_TIMESTAMP, last_activity DATETIME DEFAULT CURRENT_TIMESTAMP, status TEXT DEFAULT 'active', FOREIGN KEY (session_id) REFERENCES sessions (id), FOREIGN KEY (parent_branch_id) REFERENCES conversation_branches (id))";

pub const CREATE_BRANCH_MESSAGES: &'static str =
    "CREATE TABLE IF NOT EXISTS branch_messages (id TEXT PRIMARY KEY, branch_id TEXT NOT NULL, message_id TEXT NOT NULL, sequence_number INTEGER NOT NULL, FOREIGN KEY (branch_id) REFERENCES conversation_branches (id), FOREIGN KEY (message_id) REFERENCES messages (id))";

pub const CREATE_BRANCH_METADATA: &'static str =
    "CREATE TABLE IF NOT EXISTS branch_metadata (branch_id TEXT NOT NULL, key TEXT NOT NULL, value TEXT NOT NULL, PRIMARY KEY (branch_id, key), FOREIGN KEY (branch_id) REFERENCES conversation_branches (id))";

pub const RENAME_MESSAGES: &'static str = "ALTER TABLE messages RENAME TO messages_old";

pub const COPY_MESSAGES: &'static str =
    "INSERT INTO messages (id, session_id, role, content) SELECT CAST(id AS TEXT), session_id, role, content FROM messages_old";

pub const DROP_OLD_MESSAGES: &'static str = "DROP TABLE messages_old";

pub const RENAME_KEY_TO_NAME: &'static str = "ALTER TABLE sessions RENAME COLUMN key TO name";

// Historic rows: expires_at was always stamped at last use + 24h.
pub const BACKFILL_LAST_USED: &'static str =
    "UPDATE sessions SET last_used_at = datetime(expires_at, '-24 hours') WHERE last_used_at IS NULL";

// For existing rows insertion order is rowid order.
pub const BACKFILL_SEQUENCE: &'static str = "UPDATE messages SET sequence = rowid";

pub const SUFFIX_NAME: &'static str = "UPDATE sessions SET name = name || ?1 WHERE id = ?2";

pub const INDEX_SESSION_NAMES: &'static str =
    "CREATE UNIQUE INDEX IF NOT EXISTS idx_sessions_name ON sessions (name)";

pub const INDEX_MESSAGES: &'static str =
    "CREATE INDEX IF NOT EXISTS idx_messages_session ON messages (session_id, sequence)";

/// The sessions and their names, oldest first.
pub const FETCH_NAMES: &'static str = "SELECT id, name FROM sessions ORDER BY rowid";

pub const MESSAGES_INFO: &'static str = "PRAGMA table_info(messages)";

pub const SESSIONS_INFO: &'static str = "PRAGMA table_info(sessions)";

// ---------------------------------------------------------------------
// Tables and changes
// ---------------------------------------------------------------------

/// A table whose columns a migration looks at.
#[derive(Debug, Clone, Copy, PartialEq, Eq, Structural)]
pub enum Table {
    Messages,
    Sessions,
}

impl Table {
    pub open spec fn spelled(self) -> Seq<char> {
        match self {
            Table::Messages => "messages"@,
            Table::Sessions => "sessions"@,
        }
    }

    pub fn name(self) -> (r: &'static str)
        ensures
            r@ == self.spelled(),
    {
        match self {
            Table::Messages => "messages",
            Table::Sessions => "sessions",
        }
    }

    /// The statement that lists the columns of the table.
    pub fn info(self) -> (r: Statement)
        ensures
            r.is(
                match self {
                    Table::Messages => MESSAGES_INFO@,
                    Table::Sessions => SESSIONS_INFO@,
                },
                Seq::<Cell>::empty(),
            ),
    {
        Statement::new(
            match self {
                Table::Messages => MESSAGES_INFO,
                Table::Sessions => SESSIONS_INFO,
            },
            no_params(),
        )
    }
}

/// A column as the store describes it.
#[derive(Debug)]
pub struct Column {
    pub name: String,
    pub kind: String,
}

/// A column, by its texts.
pub struct Col {
    pub name: Seq<char>,
    pub kind: Seq<char>,
}

impl View for Column {
    type V = Col;

    open spec fn view(&self) -> Col {
        Col { name: self.name@, kind: self.kind@ }
    }
}

/// The columns of a list.
pub open spec fn cols(columns: Seq<Column>) -> Seq<Col> {
    columns.map_values(|c: Column| c@)
}

/// A column that can be missing.
#[derive(Debug, Clone, Copy, PartialEq, Eq, Structural)]
pub enum Missing {
    MessagesSessionId,
    MessagesRole,
    MessagesType,
    MessagesMetadata,
    MessagesSequence,
    SessionsCurrent,
    SessionsLastUsed,
}

impl Missing {
    pub open spec fn table(self) -> Table {
        match self {
            Missing::SessionsCurrent | Missing::SessionsLastUsed => Table::Sessions,
            _ => Table::Messages,
        }
    }

    pub open spec fn column(self) -> Seq<char> {
        match self {
            Missing::MessagesSessionId => "session_id"@,
            Missing::MessagesRole => "role"@,
            Missing::MessagesType => "message_type"@,
            Missing::MessagesMetadata => "compaction_metadata"@,
            Missing::MessagesSequence => "sequence"@,
            Missing::SessionsCurrent => "current"@,
            Missing::SessionsLastUsed => "last_used_at"@,
        }
    }

    pub open spec fn kind(self) -> Seq<char> {
        match self {
            Missing::MessagesSequence | Missing::SessionsCurrent => "INTEGER"@,
            _ => "TEXT"@,
        }
    }

    pub open spec fn definition(self) -> Seq<char> {
        match self {
            Missing::MessagesSessionId => "TEXT NOT NULL"@,
            Missing::MessagesRole => "TEXT NOT NULL"@,
            Missing::MessagesType => "TEXT NOT NULL DEFAULT 'standard'"@,
            Missing::MessagesMetadata => "TEXT"@,
            Missing::MessagesSequence => "INTEGER NOT NULL DEFAULT 0"@,
            Missing::SessionsCurrent => "INTEGER NOT NULL DEFAULT 0"@,
            Missing::SessionsLastUsed => "TEXT"@,
        }
    }

    fn names(self) -> (r: (Table, &'static str, &'static str))
        ensures
            r.0 == self.table(),
            r.1@ == self.column(),
            r.2@ == self.definition(),
    {
        match self {
            Missing::MessagesSessionId => (Table::Messages, "session_id", "TEXT NOT NULL"),
            Missing::MessagesRole => (Table::Messages, "role", "TEXT NOT NULL"),
            Missing::MessagesType => (
                Table::Messages,
                "message_type",
                "TEXT NOT NULL DEFAULT 'standard'",
            ),
            Missing::MessagesMetadata => (Table::Messages, "compaction_metadata", "TEXT"),
            Missing::MessagesSequence => (
                Table::Messages,
                "sequence",
                "INTEGER NOT NULL DEFAULT 0",
            ),
            Missing::SessionsCurrent => (Table::Sessions, "current", "INTEGER NOT NULL DEFAULT 0"),
            Missing::SessionsLastUsed => (Table::Sessions, "last_used_at", "TEXT"),
        }
    }
}

/// One change to the store.
#[derive(Debug)]
pub enum SchemaChange {
    CreateMessages,
    CreateConfig,
    CreateSessions,
    IndexSessionIds,
    CreateBranches,
    CreateBranchMessages,
    CreateBranchMetadata,
    RenameMessages,
    CopyMessages,
    DropOldMessages,
    AddColumn(Missing),
    RenameKeyToName,
    BackfillLastUsed,
    BackfillSequence,
    SuffixName { suffix: String, id: String },
    IndexSessionNames,
    IndexMessages,
}

/// `ALTER TABLE ADD COLUMN` for a column.
pub open spec fn add_column_sql(m: Missing) -> Seq<char> {
    "ALTER TABLE "@ + m.table().spelled() + " ADD COLUMN "@ + m.column() + " "@ + m.definition()
}

impl SchemaChange {
    /// The text of the change.
    pub open spec fn sql(self) -> Seq<char> {
        match self {
            SchemaChange::CreateMessages => CREATE_MESSAGES@,
            SchemaChange::CreateConfig => CREATE_CONFIG@,
            SchemaChange::CreateSessions => CREATE_SESSIONS@,
            SchemaChange::IndexSessionIds => INDEX_SESSION_IDS@,
            SchemaChange::CreateBranches => CREATE_BRANCHES@,
            SchemaChange::CreateBranchMessages => CREATE_BRANCH_MESSAGES@,
            SchemaChange::CreateBranchMetadata => CREATE_BRANCH_METADATA@,
            SchemaChange::RenameMessages => RENAME_MESSAGES@,
            SchemaChange::CopyMessages => COPY_MESSAGES@,
            SchemaChange::DropOldMessages => DROP_OLD_MESSAGES@,
            SchemaChange::AddColumn(m) => add_column_sql(m),
            SchemaChange::RenameKeyToName => RENAME_KEY_TO_NAME@,
            SchemaChange::BackfillLastUsed => BACKFILL_LAST_USED@,
            SchemaChange::BackfillSequence => BACKFILL_SEQUENCE@,
            SchemaChange::SuffixName { .. } => SUFFIX_NAME@,
            SchemaChange::IndexSessionNames => INDEX_SESSION_NAMES@,
            SchemaChange::IndexMessages => INDEX_MESSAGES@,
        }
    }

    /// The parameters of the change.
    pub open spec fn params(self) -> Seq<Cell> {
        match self {
            SchemaChange::SuffixName { suffix, id } => seq![Cell::Text(suffix@), Cell::Text(id@)],
            _ => Seq::empty(),
        }
    }

    pub fn statement(&self) -> (r: Statement)
        ensures
            r.is(self.sql(), self.params()),
    {
        let plain = match self {
            SchemaChange::CreateMessages => CREATE_MESSAGES,
            SchemaChange::CreateConfig => CREATE_CONFIG,
            SchemaChange::CreateSessions => CREATE_SESSIONS,
            SchemaChange::IndexSessionIds => INDEX_SESSION_IDS,
            SchemaChange::CreateBranches => CREATE_BRANCHES,
            SchemaChange::CreateBranchMessages => CREATE_BRANCH_MESSAGES,
            SchemaChange::CreateBranchMetadata => CREATE_BRANCH_METADATA,
            SchemaChange::RenameMessages => RENAME_MESSAGES,
            SchemaChange::CopyMessages => COPY_MESSAGES,
            SchemaChange::DropOldMessages => DROP_OLD_MESSAGES,
            SchemaChange::AddColumn(m) => {
                let (table, column, definition) = m.names();
                let start = concat(concat("ALTER TABLE ", table.name()).as_str(), " ADD COLUMN ");
                let middle = concat(concat(start.as_str(), column).as_str(), " ");
                return Statement::new(concat(middle.as_str(), definition).as_str(), no_params());
            },
            SchemaChange::RenameKeyToName => RENAME_KEY_TO_NAME,
            SchemaChange::BackfillLastUsed => BACKFILL_LAST_USED,
            SchemaChange::BackfillSequence => BACKFILL_SEQUENCE,
            SchemaChange::SuffixName { suffix, id } => {
                let values = vec![suffix.as_str(), id.as_str()];
                let params = text_params(&values);
                assert(cells(params@) =~= self.params());
                return Statement::new(SUFFIX_NAME, params);
            },
            SchemaChange::IndexSessionNames => INDEX_SESSION_NAMES,
            SchemaChange::IndexMessages => INDEX_MESSAGES,
        };
        Statement::new(plain, no_params())
    }
}

// ---------------------------------------------------------------------
// Steps
// ---------------------------------------------------------------------

/// A step of the migration.
#[derive(Debug, Clone, Copy, PartialEq, Eq, Structural)]
pub enum Step {
    CreateMessages,
    CreateConfig,
    CreateSessions,
    CreateBranches,
    CreateBranchMessages,
    CreateBranchMetadata,
    MessagesId,
    MessagesSessionId,
    MessagesRole,
    MessagesTypes,
    SessionsCurrent,
    SessionsKeyToName,
    SessionsLastUsed,
    SessionsUniqueNames,
    MessagesSequence,
    MessageIndexes,
}

/// What a step has to read first.
#[derive(Debug, Clone, Copy, PartialEq, Eq, Structural)]
pub enum Reading {
    Nothing,
    Columns(Table),
    Names,
}

/// The steps of the migration.
pub open spec fn steps() -> Seq<Step> {
    seq![
        Step::CreateMessages,
        Step::CreateConfig,
        Step::CreateSessions,
        Step::CreateBranches,
        Step::CreateBranchMessages,
        Step::CreateBranchMetadata,
        Step::MessagesId,
        Step::MessagesSessionId,
        Step::MessagesRole,
        Step::MessagesTypes,
        Step::SessionsCurrent,
        Step::SessionsKeyToName,
        Step::SessionsLastUsed,
        Step::SessionsUniqueNames,
        Step::MessagesSequence,
        Step::MessageIndexes,
    ]
}

/// The steps of the migration, in the order in which they are taken.
pub fn migrate() -> (r: Vec<Step>)
    ensures
        r@ == steps(),
{
    vec![
        Step::CreateMessages,
        Step::CreateConfig,
        Step::CreateSessions,
        Step::CreateBranches,
        Step::CreateBranchMessages,
        Step::CreateBranchMetadata,
        Step::MessagesId,
        Step::MessagesSessionId,
        Step::MessagesRole,
        Step::MessagesTypes,
        Step::SessionsCurrent,
        Step::SessionsKeyToName,
        Step::SessionsLastUsed,
        Step::SessionsUniqueNames,
        Step::MessagesSequence,
        Step::MessageIndexes,
    ]
}

/// The table has a column of this name.
pub open spec fn has_column(columns: Seq<Col>, name: Seq<char>) -> bool {
    exists|i: int| 0 <= i < columns.len() && (#[trigger] columns[i]).name == name
}

/// The table still has the numeric id of an early version.
pub open spec fn has_old_id(columns: Seq<Col>) -> bool {
    exists|i: int|
        0 <= i < columns.len() && (#[trigger] columns[i]).name == "id"@ && same_but_for_case(
            columns[i].kind,
            "INTEGER"@,
        )
}

/// True when the table has a column called `column`.
pub fn column_exists(columns: &Vec<Column>, column: &str) -> (r: bool)
    ensures
        r == has_column(cols(columns@), column@),
{
    for i in 0..columns.len()
        invariant
            forall|j: int| 0 <= j < i ==> (#[trigger] cols(columns@)[j]).name != column@,
    {
        if same(columns[i].name.as_str(), column) {
            assert(cols(columns@)[i as int].name == column@);
            return true;
        }
    }
    false
}

fn old_id_schema(columns: &Vec<Column>) -> (r: bool)
    ensures
        r == has_old_id(cols(columns@)),
{
    for i in 0..columns.len()
        invariant
            forall|j: int|
                0 <= j < i ==> !((#[trigger] cols(columns@)[j]).name == "id"@ && same_but_for_case(
                    cols(columns@)[j].kind,
                    "INTEGER"@,
                )),
    {
        if same(columns[i].name.as_str(), "id") && equal_ignoring_case(
            columns[i].kind.as_str(),
            "INTEGER",
        ) {
            assert(cols(columns@)[i as int].name == "id"@);
            return true;
        }
    }
    false
}

/// A change, with its texts by their characters.
pub enum Done {
    Plain(SchemaChange),
    Suffix(Seq<char>, Seq<char>),
}

/// What a change does, apart from the identity of its strings.
pub open spec fn done(c: SchemaChange) -> Done {
    match c {
        SchemaChange::SuffixName { suffix, id } => Done::Suffix(suffix@, id@),
        other => Done::Plain(other),
    }
}

/// What a list of changes does.
pub open spec fn all_done(list: Seq<SchemaChange>) -> Seq<Done> {
    list.map_values(|c: SchemaChange| done(c))
}

/// The changes that add a column that is not there.
pub open spec fn adding(columns: Seq<Col>, m: Missing, then_also: Seq<Done>) -> Seq<Done> {
    if has_column(columns, m.column()) {
        Seq::empty()
    } else {
        seq![Done::Plain(SchemaChange::AddColumn(m))] + then_also
    }
}

/// A session, by its id and its name.
pub struct Named {
    pub id: Seq<char>,
    pub name: Seq<char>,
}

/// The sessions of a list of ids and names.
pub open spec fn named(rows: Seq<(String, String)>) -> Seq<Named> {
    rows.map_values(|row: (String, String)| Named { id: row.0@, name: row.1@ })
}

/// The names of some sessions.
pub open spec fn names_of(rows: Seq<Named>) -> Seq<Seq<char>> {
    rows.map_values(|row: Named| row.name)
}

/// No two sessions have one name.
pub open spec fn all_different(rows: Seq<Named>) -> bool {
    forall|i: int, j: int|
        #![trigger rows[i], rows[j]]
        0 <= i < j < rows.len() ==> rows[i].name != rows[j].name
}

/// No older session has the name of the session at `i`.
pub open spec fn first_of_name(rows: Seq<Named>, i: int) -> bool {
    forall|j: int| 0 <= j < i ==> (#[trigger] rows[j]).name != rows[i].name
}

/// How many of the `n` oldest sessions share the name of one older still.
pub open spec fn shadowed(rows: Seq<Named>, n: nat) -> nat
    decreases n,
{
    if n == 0 {
        0
    } else {
        shadowed(rows, (n - 1) as nat) + if first_of_name(rows, n - 1) {
            0nat
        } else {
            1
        }
    }
}

/// The suffix with a number.
pub open spec fn suffix(number: nat) -> Seq<char> {
    "-"@ + decimal(number)
}

/// The first number, counted from `from` and tried so many times, that makes
/// `name` one that is not taken.
pub open spec fn free_number(
    name: Seq<char>,
    taken: Seq<Seq<char>>,
    from: nat,
    tries: nat,
) -> nat
    decreases tries,
{
    if tries == 0 || !taken.contains(name + suffix(from)) {
        from
    } else {
        free_number(name, taken, from + 1, (tries - 1) as nat)
    }
}

/// The number that the session at `i` gets when its name is not its own: the
/// shadowed sessions count from two, and pass over the names that any session
/// has or was given.
pub open spec fn number_at(rows: Seq<Named>, i: int) -> nat
    decreases i, 1nat,
{
    if i < 0 {
        0
    } else {
        let taken = names_of(rows) + new_names(rows, i as nat);
        free_number(rows[i].name, taken, shadowed(rows, i as nat) + 2, taken.len())
    }
}

/// The names of the `n` oldest sessions once none is shared.
pub open spec fn new_names(rows: Seq<Named>, n: nat) -> Seq<Seq<char>>
    decreases n, 0nat,
{
    if n == 0 {
        Seq::empty()
    } else {
        new_names(rows, (n - 1) as nat).push(
            if first_of_name(rows, n - 1) {
                rows[n - 1].name
            } else {
                rows[n - 1].name + suffix(number_at(rows, n - 1))
            },
        )
    }
}

/// The changes that give each of the `n` oldest sessions a name of its own.
pub open spec fn suffixings(rows: Seq<Named>, n: nat) -> Seq<Done>
    decreases n,
{
    if n == 0 {
        Seq::empty()
    } else {
        let rest = suffixings(rows, (n - 1) as nat);
        if first_of_name(rows, n - 1) {
            rest
        } else {
            rest.push(Done::Suffix(suffix(number_at(rows, n - 1)), rows[n - 1].id))
        }
    }
}

/// The changes of a step, given what it read.
pub open spec fn step_changes(step: Step, columns: Seq<Col>, names: Seq<Named>) -> Seq<Done> {
    match step {
        Step::CreateMessages => seq![Done::Plain(SchemaChange::CreateMessages)],
        Step::CreateConfig => seq![Done::Plain(SchemaChange::CreateConfig)],
        Step::CreateSessions => seq![
            Done::Plain(SchemaChange::CreateSessions),
            Done::Plain(SchemaChange::IndexSessionIds),
        ],
        Step::CreateBranches => seq![Done::Plain(SchemaChange::CreateBranches)],
        Step::CreateBranchMessages => seq![Done::Plain(SchemaChange::CreateBranchMessages)],
        Step::CreateBranchMetadata => seq![Done::Plain(SchemaChange::CreateBranchMetadata)],
        Step::MessagesId => if has_old_id(columns) {
            seq![
                Done::Plain(SchemaChange::RenameMessages),
                Done::Plain(SchemaChange::CreateMessages),
                Done::Plain(SchemaChange::CopyMessages),
                Done::Plain(SchemaChange::DropOldMessages),
            ]
        } else {
            Seq::empty()
        },
        Step::MessagesSessionId => adding(columns, Missing::MessagesSessionId, Seq::empty()),
        Step::MessagesRole => adding(columns, Missing::MessagesRole, Seq::empty()),
        Step::MessagesTypes => adding(columns, Missing::MessagesType, Seq::empty()) + adding(
            columns,
            Missing::MessagesMetadata,
            Seq::empty(),
        ),
        Step::SessionsCurrent => adding(columns, Missing::SessionsCurrent, Seq::empty()),
        Step::SessionsKeyToName => if has_column(columns, "key"@) {
            seq![Done::Plain(SchemaChange::RenameKeyToName)]
        } else {
            Seq::empty()
        },
        Step::SessionsLastUsed => adding(
            columns,
            Missing::SessionsLastUsed,
            seq![Done::Plain(SchemaChange::BackfillLastUsed)],
        ),
        Step::SessionsUniqueNames => suffixings(names, names.len()).push(
            Done::Plain(SchemaChange::IndexSessionNames),
        ),
        Step::MessagesSequence => adding(
            columns,
            Missing::MessagesSequence,
            seq![Done::Plain(SchemaChange::BackfillSequence)],
        ),
        Step::MessageIndexes => seq![Done::Plain(SchemaChange::IndexMessages)],
    }
}

fn add_missing(columns: &Vec<Column>, m: Missing) -> (r: Vec<SchemaChange>)
    ensures
        all_done(r@) == adding(cols(columns@), m, Seq::empty()),
{
    let (_, column, _) = m.names();
    let mut r: Vec<SchemaChange> = Vec::new();
    if !column_exists(columns, column) {
        r.push(SchemaChange::AddColumn(m));
    }
    assert(all_done(r@) =~= adding(cols(columns@), m, Seq::empty()));
    r
}

fn is_first_of_name(rows: &Vec<(String, String)>, i: usize) -> (r: bool)
    requires
        i < rows@.len(),
    ensures
        r == first_of_name(named(rows@), i as int),
{
    for j in 0..i
        invariant
            i < rows@.len(),
            forall|k: int| 0 <= k < j ==> (#[trigger] named(rows@)[k]).name != rows@[i as int].1@,
    {
        if same(rows[j].1.as_str(), rows[i].1.as_str()) {
            assert(named(rows@)[j as int].name == named(rows@)[i as int].name);
            return false;
        }
    }
    assert(named(rows@)[i as int].name == rows@[i as int].1@);
    true
}

fn holds(list: &Vec<String>, s: &str) -> (r: bool)
    ensures
        r == texts(list@).contains(s@),
{
    for i in 0..list.len()
        invariant
            forall|k: int| 0 <= k < i ==> #[trigger] texts(list@)[k] != s@,
    {
        if same(list[i].as_str(), s) {
            assert(texts(list@)[i as int] == s@);
            return true;
        }
    }
    false
}

fn find_suffix(name: &str, taken: &Vec<String>, from: u128) -> (r: String)
    requires
        from <= usize::MAX + 2,
    ensures
        r@ == suffix(free_number(name@, texts(taken@), from as nat, taken@.len())),
{
    let mut number: u128 = from;
    let mut tries: usize = taken.len();
    while tries > 0
        invariant
            from <= usize::MAX + 2,
            number + tries == from + taken.len(),
            free_number(name@, texts(taken@), number as nat, tries as nat) == free_number(
                name@,
                texts(taken@),
                from as nat,
                taken@.len(),
            ),
        decreases tries,
    {
        let end = concat("-", long_decimal_text(number).as_str());
        if !holds(taken, concat(name, end.as_str()).as_str()) {
            return end;
        }
        number += 1;
        tries -= 1;
    }
    concat("-", long_decimal_text(number).as_str())
}

/// The id and the name of a session in a list of columns.
pub fn row_to_name(row: &Vec<Value>) -> (r: Result<(String, String), BadColumn>)
    ensures
        match r {
            Ok((id, name)) => {
                &&& text_cell(cells(row@), 0) == Some(id@)
                &&& text_cell(cells(row@), 1) == Some(name@)
            },
            Err(BadColumn(i)) => {
                &&& i < 2
                &&& text_cell(cells(row@), i as int) is None
                &&& forall|k: int| 0 <= k < i ==> #[trigger] text_cell(cells(row@), k) is Some
            },
        },
{
    let id = match text_at(row, 0) {
        Some(s) => s,
        None => return Err(BadColumn(0)),
    };
    match text_at(row, 1) {
        Some(name) => Ok((id, name)),
        None => Err(BadColumn(1)),
    }
}

/// The changes that give every session a name of its own: the oldest of those
/// that share one keeps it, and the others get a number after it that makes a
/// name which no session has.
pub fn unique_names(rows: &Vec<(String, String)>) -> (r: Vec<SchemaChange>)
    ensures
        all_done(r@) == suffixings(named(rows@), rows@.len()),
{
    let ghost all = named(rows@);
    let mut taken: Vec<String> = Vec::new();
    for i in 0..rows.len()
        invariant
            all == named(rows@),
            texts(taken@) == names_of(all).take(i as int),
    {
        let ghost before = taken@;
        taken.push(rows[i].1.clone());
        assert(texts(taken@) =~= texts(before).push(all[i as int].name));
        assert(names_of(all).take(i + 1) =~= names_of(all).take(i as int).push(all[i as int].name));
    }
    assert(names_of(all).take(rows@.len() as int) =~= names_of(all));
    let mut r: Vec<SchemaChange> = Vec::new();
    let mut count: usize = 0;
    assert(all_done(r@) =~= suffixings(all, 0));
    assert(texts(taken@) =~= names_of(all) + new_names(all, 0));
    for i in 0..rows.len()
        invariant
            all == named(rows@),
            all_done(r@) == suffixings(all, i as nat),
            count == shadowed(all, i as nat),
            count <= i,
            texts(taken@) == names_of(all) + new_names(all, i as nat),
    {
        let ghost changed_before = r@;
        let ghost taken_before = taken@;
        let ghost given = new_names(all, i as nat);
        if is_first_of_name(rows, i) {
            taken.push(rows[i].1.clone());
            assert(texts(taken@) =~= texts(taken_before).push(all[i as int].name));
            assert(texts(taken@) =~= names_of(all) + given.push(all[i as int].name));
        } else {
            assert(texts(taken@).len() == taken@.len());
            let end = find_suffix(rows[i].1.as_str(), &taken, count as u128 + 2);
            count += 1;
            let name = concat(rows[i].1.as_str(), end.as_str());
            taken.push(name);
            r.push(SchemaChange::SuffixName { suffix: end, id: rows[i].0.clone() });
            assert(texts(taken@) =~= texts(taken_before).push(name@));
            assert(texts(taken@) =~= names_of(all) + given.push(name@));
            assert(all_done(r@) =~= all_done(changed_before).push(
                Done::Suffix(suffix(number_at(all, i as int)), all[i as int].id),
            ));
        }
    }
    r
}

impl Step {
    pub open spec fn needs(self) -> Reading {
        match self {
            Step::MessagesId | Step::MessagesSessionId | Step::MessagesRole | Step::MessagesTypes
            | Step::MessagesSequence => Reading::Columns(Table::Messages),
            Step::SessionsCurrent | Step::SessionsKeyToName
            | Step::SessionsLastUsed => Reading::Columns(Table::Sessions),
            Step::SessionsUniqueNames => Reading::Names,
            _ => Reading::Nothing,
        }
    }

    /// What has to be read of the store before the step.
    pub fn reads(self) -> (r: Reading)
        ensures
            r == self.needs(),
    {
        match self {
            Step::MessagesId | Step::MessagesSessionId | Step::MessagesRole | Step::MessagesTypes
            | Step::MessagesSequence => Reading::Columns(Table::Messages),
            Step::SessionsCurrent | Step::SessionsKeyToName
            | Step::SessionsLastUsed => Reading::Columns(Table::Sessions),
            Step::SessionsUniqueNames => Reading::Names,
            _ => Reading::Nothing,
        }
    }

    /// The failure of the change at `at` is none: the column was added by
    /// another program first. What is left of the step is then skipped.
    pub fn forgives(self, at: usize, error: &str) -> (r: bool)
        ensures
            r == ((self is SessionsLastUsed || self is MessagesSequence) && at == 0 && has_part(
                error@,
                "duplicate column name"@,
            )),
    {
        let adds = match self {
            Step::SessionsLastUsed | Step::MessagesSequence => true,
            _ => false,
        };
        adds && at == 0 && is_duplicate_column(error)
    }

    /// The changes that the step still has to make: `columns` are those of the
    /// table it reads, `names` the ids and names of the sessions, oldest first.
    pub fn changes(self, columns: &Vec<Column>, names: &Vec<(String, String)>) -> (r: Vec<
        SchemaChange,
    >)
        ensures
            all_done(r@) == step_changes(self, cols(columns@), named(names@)),
    {
        let ghost want = step_changes(self, cols(columns@), named(names@));
        let mut r: Vec<SchemaChange> = Vec::new();
        match self {
            Step::CreateMessages => {
                r.push(SchemaChange::CreateMessages);
            },
            Step::CreateConfig => {
                r.push(SchemaChange::CreateConfig);
            },
            Step::CreateSessions => {
                r.push(SchemaChange::CreateSessions);
                r.push(SchemaChange::IndexSessionIds);
            },
            Step::CreateBranches => {
                r.push(SchemaChange::CreateBranches);
            },
            Step::CreateBranchMessages => {
                r.push(SchemaChange::CreateBranchMessages);
            },
            Step::CreateBranchMetadata => {
                r.push(SchemaChange::CreateBranchMetadata);
            },
            Step::MessagesId => {
                if old_id_schema(columns) {
                    r.push(SchemaChange::RenameMessages);
                    r.push(SchemaChange::CreateMessages);
                    r.push(SchemaChange::CopyMessages);
                    r.push(SchemaChange::DropOldMessages);
                }
            },
            Step::MessagesSessionId => {
                r = add_missing(columns, Missing::MessagesSessionId);
            },
            Step::MessagesRole => {
                r = add_missing(columns, Missing::MessagesRole);
            },
            Step::MessagesTypes => {
                r = add_missing(columns, Missing::MessagesType);
                let ghost first = r@;
                if !column_exists(columns, "compaction_metadata") {
                    r.push(SchemaChange::AddColumn(Missing::MessagesMetadata));
                    assert(all_done(r@) =~= all_done(first).push(
                        Done::Plain(SchemaChange::AddColumn(Missing::MessagesMetadata)),
                    ));
                }
                assert(all_done(r@) =~= want);
            },
            Step::SessionsCurrent => {
                r = add_missing(columns, Missing::SessionsCurrent);
            },
            Step::SessionsKeyToName => {
                if column_exists(columns, "key") {
                    r.push(SchemaChange::RenameKeyToName);
                }
            },
            Step::SessionsLastUsed => {
                if !column_exists(columns, "last_used_at") {
                    r.push(SchemaChange::AddColumn(Missing::SessionsLastUsed));
                    r.push(SchemaChange::BackfillLastUsed);
                }
            },
            Step::SessionsUniqueNames => {
                r = unique_names(names);
                let ghost before = r@;
                r.push(SchemaChange::IndexSessionNames);
                assert(all_done(r@) =~= all_done(before).push(
                    Done::Plain(SchemaChange::IndexSessionNames),
                ));
            },
            Step::MessagesSequence => {
                if !column_exists(columns, "sequence") {
                    r.push(SchemaChange::AddColumn(Missing::MessagesSequence));
                    r.push(SchemaChange::BackfillSequence);
                }
            },
            Step::MessageIndexes => {
                r.push(SchemaChange::IndexMessages);
            },
        }
        assert(all_done(r@) =~= want);
        r
    }
}

/// The store's words say that the column was already there.
pub fn is_duplicate_column(error: &str) -> (r: bool)
    ensures
        r == has_part(error@, "duplicate column name"@),
{
    contains(error, "duplicate column name")
}

// ---------------------------------------------------------------------
// What a migration comes to
// ---------------------------------------------------------------------

/// The columns of the tables that a migration looks at; a table that does not
/// exist has none.
pub struct Schema {
    pub messages: Option<Seq<Col>>,
    pub sessions: Option<Seq<Col>>,
}

/// The columns of a new messages table.
pub open spec fn new_messages() -> Seq<Col> {
    seq![
        Col { name: "id"@, kind: "TEXT"@ },
        Col { name: "session_id"@, kind: "TEXT"@ },
        Col { name: "role"@, kind: "TEXT"@ },
        Col { name: "content"@, kind: "TEXT"@ },
    ]
}

/// The columns of a new sessions table.
pub open spec fn new_sessions() -> Seq<Col> {
    seq![
        Col { name: "id"@, kind: "TEXT"@ },
        Col { name: "name"@, kind: "TEXT"@ },
        Col { name: "expires_at"@, kind: "TEXT"@ },
        Col { name: "current"@, kind: "INTEGER"@ },
    ]
}

/// A column that a rename may concern.
pub open spec fn with_name_for_key(c: Col) -> Col {
    if c.name == "key"@ {
        Col { name: "name"@, ..c }
    } else {
        c
    }
}

/// The schema after a change that succeeded.
pub open spec fn changed(s: Schema, d: Done) -> Schema {
    match d {
        Done::Plain(SchemaChange::CreateMessages) => match s.messages {
            Some(_) => s,
            None => Schema { messages: Some(new_messages()), ..s },
        },
        Done::Plain(SchemaChange::CreateSessions) => match s.sessions {
            Some(_) => s,
            None => Schema { sessions: Some(new_sessions()), ..s },
        },
        Done::Plain(SchemaChange::RenameMessages) => Schema { messages: None, ..s },
        Done::Plain(SchemaChange::AddColumn(m)) => {
            let column = Col { name: m.column(), kind: m.kind() };
            match m.table() {
                Table::Messages => match s.messages {
                    Some(columns) => Schema { messages: Some(columns.push(column)), ..s },
                    None => s,
                },
                Table::Sessions => match s.sessions {
                    Some(columns) => Schema { sessions: Some(columns.push(column)), ..s },
                    None => s,
                },
            }
        },
        Done::Plain(SchemaChange::RenameKeyToName) => match s.sessions {
            Some(columns) => Schema {
                sessions: Some(columns.map_values(|c: Col| with_name_for_key(c))),
                ..s
            },
            None => s,
        },
        _ => s,
    }
}

/// The schema after a list of changes that succeeded.
pub open spec fn all_changed(s: Schema, list: Seq<Done>) -> Schema
    decreases list.len(),
{
    if list.len() == 0 {
        s
    } else {
        changed(all_changed(s, list.drop_last()), list.last())
    }
}

/// The columns that a step reads.
pub open spec fn columns_read(s: Schema, step: Step) -> Seq<Col> {
    let found = match step.needs() {
        Reading::Columns(Table::Messages) => s.messages,
        Reading::Columns(Table::Sessions) => s.sessions,
        _ => None,
    };
    match found {
        Some(columns) => columns,
        None => Seq::empty(),
    }
}

/// The schema after a step.
pub open spec fn stepped(s: Schema, step: Step, names: Seq<Named>) -> Schema {
    all_changed(s, step_changes(step, columns_read(s, step), names))
}

/// The schema after the first `n` steps of the migration.
pub open spec fn migrated_by(s: Schema, n: nat, names: Seq<Named>) -> Schema
    decreases n,
{
    if n == 0 {
        s
    } else {
        stepped(migrated_by(s, (n - 1) as nat, names), steps()[n - 1], names)
    }
}

/// The schema after the whole migration.
pub open spec fn migrated(s: Schema, names: Seq<Named>) -> Schema {
    migrated_by(s, steps().len(), names)
}

/// A schema that some version of the program has made: a table is missing or
/// has the columns that it always had, and sessions have a name, under its old
/// or its new heading.
pub open spec fn known(s: Schema) -> bool {
    &&& s.messages matches Some(columns) ==> has_column(columns, "id"@) && has_column(
        columns,
        "content"@,
    )
    &&& s.sessions matches Some(columns) ==> has_column(columns, "id"@) && has_column(
        columns,
        "expires_at"@,
    ) && (has_column(columns, "key"@) || has_column(columns, "name"@))
}

/// The schema has everything that the statements of this program use, and
/// nothing that a migration would change.
pub open spec fn up_to_date(s: Schema) -> bool {
    &&& s.messages matches Some(m) && {
        &&& has_column(m, "id"@)
        &&& has_column(m, "session_id"@)
        &&& has_column(m, "role"@)
        &&& has_column(m, "content"@)
        &&& has_column(m, "message_type"@)
        &&& has_column(m, "compaction_metadata"@)
        &&& has_column(m, "sequence"@)
        &&& !has_old_id(m)
    }
    &&& s.sessions matches Some(c) && {
        &&& has_column(c, "id"@)
        &&& has_column(c, "name"@)
        &&& has_column(c, "expires_at"@)
        &&& has_column(c, "current"@)
        &&& has_column(c, "last_used_at"@)
        &&& !has_column(c, "key"@)
    }
}

proof fn lemma_all_changed_append(s: Schema, a: Seq<Done>, b: Seq<Done>)
    ensures
        all_changed(s, a + b) == all_changed(all_changed(s, a), b),
    decreases b.len(),
{
    if b.len() == 0 {
        assert(a + b =~= a);
    } else {
        assert((a + b).drop_last() =~= a + b.drop_last());
        lemma_all_changed_append(s, a, b.drop_last());
    }
}

proof fn lemma_one_change(s: Schema, d: Done)
    ensures
        all_changed(s, seq![d]) == changed(s, d),
{
    assert(seq![d].drop_last() =~= Seq::<Done>::empty());
    assert(all_changed(s, Seq::<Done>::empty()) == s);
}

proof fn lemma_no_change(s: Schema)
    ensures
        all_changed(s, Seq::<Done>::empty()) == s,
{
}

/// Adding a column keeps the others.
proof fn lemma_pushed(columns: Seq<Col>, c: Col)
    ensures
        has_column(columns.push(c), c.name),
        forall|name: Seq<char>| #[trigger]
            has_column(columns, name) ==> has_column(columns.push(c), name),
        forall|name: Seq<char>|
            name != c.name && #[trigger] has_column(columns.push(c), name) ==> has_column(
                columns,
                name,
            ),
        c.name != "id"@ ==> has_old_id(columns.push(c)) == has_old_id(columns),
{
    let more = columns.push(c);
    assert(more[columns.len() as int].name == c.name);
    assert forall|name: Seq<char>| #[trigger] has_column(columns, name) implies has_column(
        more,
        name,
    ) by {
        let i = choose|i: int| 0 <= i < columns.len() && (#[trigger] columns[i]).name == name;
        assert(more[i].name == name);
    }
    assert forall|name: Seq<char>| name != c.name && #[trigger] has_column(more, name) implies
        has_column(columns, name) by {
        let i = choose|i: int| 0 <= i < more.len() && (#[trigger] more[i]).name == name;
        assert(columns[i].name == name);
    }
    if c.name != "id"@ {
        if has_old_id(more) {
            let i = choose|i: int|
                0 <= i < more.len() && (#[trigger] more[i]).name == "id"@ && same_but_for_case(
                    more[i].kind,
                    "INTEGER"@,
                );
            assert(columns[i].name == "id"@);
        }
        if has_old_id(columns) {
            let i = choose|i: int|
                0 <= i < columns.len() && (#[trigger] columns[i]).name == "id"@
                    && same_but_for_case(columns[i].kind, "INTEGER"@);
            assert(more[i].name == "id"@);
        }
    }
}

/// A step that adds a column to the messages.
proof fn lemma_adding_messages(columns: Seq<Col>, sessions: Option<Seq<Col>>, m: Missing, also: Seq<Done>)
    requires
        m.table() is Messages,
        also.len() == 0 || also == seq![Done::Plain(SchemaChange::BackfillSequence)],
    ensures
        ({
            let s = Schema { messages: Some(columns), sessions };
            let r = all_changed(s, adding(columns, m, also));
            &&& r.sessions == sessions
            &&& r.messages matches Some(more) && {
                &&& has_column(more, m.column())
                &&& forall|name: Seq<char>| #[trigger]
                    has_column(columns, name) ==> has_column(more, name)
                &&& m.column() != "id"@ ==> has_old_id(more) == has_old_id(columns)
            }
        }),
{
    let s = Schema { messages: Some(columns), sessions };
    let add = Done::Plain(SchemaChange::AddColumn(m));
    if has_column(columns, m.column()) {
        lemma_no_change(s);
    } else {
        lemma_one_change(s, add);
        lemma_all_changed_append(s, seq![add], also);
        lemma_pushed(columns, Col { name: m.column(), kind: m.kind() });
        let t = changed(s, add);
        if also.len() == 0 {
            assert(all_changed(t, also) == t);
        } else {
            lemma_one_change(t, Done::Plain(SchemaChange::BackfillSequence));
        }
    }
}

/// A step that adds a column to the sessions.
proof fn lemma_adding_sessions(columns: Seq<Col>, messages: Option<Seq<Col>>, m: Missing, also: Seq<Done>)
    requires
        m.table() is Sessions,
        also.len() == 0 || also == seq![Done::Plain(SchemaChange::BackfillLastUsed)],
    ensures
        ({
            let s = Schema { messages, sessions: Some(columns) };
            let r = all_changed(s, adding(columns, m, also));
            &&& r.messages == messages
            &&& r.sessions matches Some(more) && {
                &&& has_column(more, m.column())
                &&& forall|name: Seq<char>| #[trigger]
                    has_column(columns, name) ==> has_column(more, name)
                &&& forall|name: Seq<char>|
                    name != m.column() && #[trigger] has_column(more, name) ==> has_column(
                        columns,
                        name,
                    )
            }
        }),
{
    let s = Schema { messages, sessions: Some(columns) };
    let add = Done::Plain(SchemaChange::AddColumn(m));
    if has_column(columns, m.column()) {
        lemma_no_change(s);
    } else {
        lemma_one_change(s, add);
        lemma_all_changed_append(s, seq![add], also);
        lemma_pushed(columns, Col { name: m.column(), kind: m.kind() });
        let t = changed(s, add);
        if also.len() == 0 {
            assert(all_changed(t, also) == t);
        } else {
            lemma_one_change(t, Done::Plain(SchemaChange::BackfillLastUsed));
        }
    }
}

proof fn lemma_new_tables()
    ensures
        has_column(new_messages(), "id"@),
        has_column(new_messages(), "session_id"@),
        has_column(new_messages(), "role"@),
        has_column(new_messages(), "content"@),
        !has_old_id(new_messages()),
        has_column(new_sessions(), "id"@),
        has_column(new_sessions(), "name"@),
        has_column(new_sessions(), "expires_at"@),
        has_column(new_sessions(), "current"@),
        !has_column(new_sessions(), "key"@),
{
    reveal_strlit("id");
    reveal_strlit("key");
    reveal_strlit("name");
    reveal_strlit("expires_at");
    reveal_strlit("current");
    reveal_strlit("TEXT");
    reveal_strlit("INTEGER");
    let m = new_messages();
    let c = new_sessions();
    assert(m[0].name == "id"@);
    assert(m[1].name == "session_id"@);
    assert(m[2].name == "role"@);
    assert(m[3].name == "content"@);
    assert(c[0].name == "id"@);
    assert(c[1].name == "name"@);
    assert(c[2].name == "expires_at"@);
    assert(c[3].name == "current"@);
    assert("TEXT"@.len() != "INTEGER"@.len());
    assert("key"@.len() == 3);
    assert("id"@.len() == 2 && "name"@.len() == 4 && "expires_at"@.len() == 10 && "current"@.len()
        == 7);
}

proof fn lemma_renamed(columns: Seq<Col>)
    ensures
        ({
            let more = columns.map_values(|c: Col| with_name_for_key(c));
            &&& !has_column(more, "key"@)
            &&& has_column(columns, "key"@) ==> has_column(more, "name"@)
            &&& forall|name: Seq<char>|
                name != "key"@ && #[trigger] has_column(columns, name) ==> has_column(more, name)
        }),
{
    let more = columns.map_values(|c: Col| with_name_for_key(c));
    reveal_strlit("key");
    reveal_strlit("name");
    assert("key"@.len() != "name"@.len());
    assert forall|i: int| 0 <= i < more.len() implies (#[trigger] more[i]).name != "key"@ by {
        assert(more[i] == with_name_for_key(columns[i]));
    }
    assert forall|name: Seq<char>| name != "key"@ && #[trigger] has_column(columns, name) implies
        has_column(more, name) by {
        let i = choose|i: int| 0 <= i < columns.len() && (#[trigger] columns[i]).name == name;
        assert(more[i].name == name);
    }
    if has_column(columns, "key"@) {
        let i = choose|i: int| 0 <= i < columns.len() && (#[trigger] columns[i]).name == "key"@;
        assert(more[i].name == "name"@);
    }
}

/// Changes that leave the columns alone.
proof fn lemma_harmless(s: Schema, list: Seq<Done>)
    requires
        forall|i: int| 0 <= i < list.len() ==> changed(s, #[trigger] list[i]) == s,
    ensures
        all_changed(s, list) == s,
    decreases list.len(),
{
    if list.len() > 0 {
        assert(forall|i: int| 0 <= i < list.drop_last().len() ==> list.drop_last()[i] == list[i]);
        lemma_harmless(s, list.drop_last());
        assert(changed(s, list[list.len() - 1]) == s);
    }
}

proof fn lemma_tables_made(s: Schema, names: Seq<Named>)
    requires
        known(s),
    ensures
        ({
            let t = migrated_by(s, 6, names);
            &&& known(t)
            &&& t.messages is Some
            &&& t.sessions is Some
        }),
{
    reveal_with_fuel(migrated_by, 7);
    lemma_new_tables();
    lemma_one_change(s, Done::Plain(SchemaChange::CreateMessages));
    let s1 = stepped(s, Step::CreateMessages, names);
    assert(migrated_by(s, 1, names) == s1);
    lemma_one_change(s1, Done::Plain(SchemaChange::CreateConfig));
    assert(migrated_by(s, 2, names) == s1);
    let make = Done::Plain(SchemaChange::CreateSessions);
    let index = Done::Plain(SchemaChange::IndexSessionIds);
    lemma_one_change(s1, make);
    let s3 = changed(s1, make);
    lemma_one_change(s3, index);
    lemma_all_changed_append(s1, seq![make], seq![index]);
    assert(seq![make] + seq![index] =~= seq![make, index]);
    assert(migrated_by(s, 3, names) == s3);
    lemma_one_change(s3, Done::Plain(SchemaChange::CreateBranches));
    lemma_one_change(s3, Done::Plain(SchemaChange::CreateBranchMessages));
    lemma_one_change(s3, Done::Plain(SchemaChange::CreateBranchMetadata));
    assert(migrated_by(s, 4, names) == s3);
    assert(migrated_by(s, 5, names) == s3);
    assert(migrated_by(s, 6, names) == s3);
}

proof fn lemma_messages_id(s: Schema, names: Seq<Named>)
    requires
        s.messages matches Some(m) && has_column(m, "id"@) && has_column(m, "content"@),
    ensures
        ({
            let t = stepped(s, Step::MessagesId, names);
            &&& t.sessions == s.sessions
            &&& t.messages matches Some(m) && has_column(m, "id"@) && has_column(m, "content"@)
                && !has_old_id(m)
        }),
{
    lemma_new_tables();
    let m = s.messages->0;
    if has_old_id(m) {
        let away = Done::Plain(SchemaChange::RenameMessages);
        let make = Done::Plain(SchemaChange::CreateMessages);
        let copy = Done::Plain(SchemaChange::CopyMessages);
        let drop_old = Done::Plain(SchemaChange::DropOldMessages);
        let list = seq![away, make, copy, drop_old];
        let s1 = changed(s, away);
        let s2 = changed(s1, make);
        assert(list.drop_last() =~= seq![away, make, copy]);
        assert(seq![away, make, copy].drop_last() =~= seq![away, make]);
        assert(seq![away, make].drop_last() =~= seq![away]);
        lemma_one_change(s, away);
        assert(all_changed(s, seq![away, make]) == s2);
        assert(all_changed(s, seq![away, make, copy]) == s2);
        assert(all_changed(s, list) == s2);
    } else {
        lemma_no_change(s);
    }
}

proof fn lemma_message_columns(s: Schema, names: Seq<Named>)
    requires
        s.messages matches Some(m) && has_column(m, "id"@) && has_column(m, "content"@)
            && !has_old_id(m),
    ensures
        ({
            let a = stepped(s, Step::MessagesSessionId, names);
            let b = stepped(a, Step::MessagesRole, names);
            let t = stepped(b, Step::MessagesTypes, names);
            &&& t.sessions == s.sessions
            &&& t.messages matches Some(m) && {
                &&& has_column(m, "id"@)
                &&& has_column(m, "session_id"@)
                &&& has_column(m, "role"@)
                &&& has_column(m, "content"@)
                &&& has_column(m, "message_type"@)
                &&& has_column(m, "compaction_metadata"@)
                &&& !has_old_id(m)
            }
        }),
{
    reveal_strlit("id");
    reveal_strlit("session_id");
    reveal_strlit("role");
    reveal_strlit("message_type");
    reveal_strlit("compaction_metadata");
    assert("id"@.len() == 2);
    assert("session_id"@.len() == 10 && "role"@.len() == 4 && "message_type"@.len() == 12
        && "compaction_metadata"@.len() == 19);
    let none = Seq::<Done>::empty();
    lemma_adding_messages(s.messages->0, s.sessions, Missing::MessagesSessionId, none);
    let a = stepped(s, Step::MessagesSessionId, names);
    lemma_adding_messages(a.messages->0, a.sessions, Missing::MessagesRole, none);
    let b = stepped(a, Step::MessagesRole, names);
    let before = b.messages->0;
    lemma_adding_messages(before, b.sessions, Missing::MessagesType, none);
    let first = adding(before, Missing::MessagesType, none);
    let second = adding(before, Missing::MessagesMetadata, none);
    let mid = all_changed(b, first);
    let meta = Done::Plain(SchemaChange::AddColumn(Missing::MessagesMetadata));
    lemma_all_changed_append(b, first, second);
    if has_column(before, "compaction_metadata"@) {
        lemma_no_change(mid);
    } else {
        assert(seq![meta] + none =~= seq![meta]);
        lemma_one_change(mid, meta);
        lemma_pushed(
            mid.messages->0,
            Col { name: "compaction_metadata"@, kind: Missing::MessagesMetadata.kind() },
        );
    }
}

proof fn lemma_session_columns(s: Schema, names: Seq<Named>)
    requires
        s.sessions matches Some(c) && has_column(c, "id"@) && has_column(c, "expires_at"@) && (
        has_column(c, "key"@) || has_column(c, "name"@)),
    ensures
        ({
            let a = stepped(s, Step::SessionsCurrent, names);
            let b = stepped(a, Step::SessionsKeyToName, names);
            let t = stepped(b, Step::SessionsLastUsed, names);
            &&& t.messages == s.messages
            &&& t.sessions matches Some(c) && {
                &&& has_column(c, "id"@)
                &&& has_column(c, "name"@)
                &&& has_column(c, "expires_at"@)
                &&& has_column(c, "current"@)
                &&& has_column(c, "last_used_at"@)
                &&& !has_column(c, "key"@)
            }
        }),
{
    reveal_strlit("id");
    reveal_strlit("key");
    reveal_strlit("name");
    reveal_strlit("expires_at");
    reveal_strlit("current");
    reveal_strlit("last_used_at");
    assert("id"@.len() == 2 && "key"@.len() == 3 && "name"@.len() == 4 && "expires_at"@.len() == 10
        && "current"@.len() == 7 && "last_used_at"@.len() == 12);
    let none = Seq::<Done>::empty();
    lemma_adding_sessions(s.sessions->0, s.messages, Missing::SessionsCurrent, none);
    let a = stepped(s, Step::SessionsCurrent, names);
    let rename = Done::Plain(SchemaChange::RenameKeyToName);
    if has_column(a.sessions->0, "key"@) {
        lemma_one_change(a, rename);
        lemma_renamed(a.sessions->0);
    } else {
        lemma_no_change(a);
    }
    let b = stepped(a, Step::SessionsKeyToName, names);
    lemma_adding_sessions(
        b.sessions->0,
        b.messages,
        Missing::SessionsLastUsed,
        seq![Done::Plain(SchemaChange::BackfillLastUsed)],
    );
}

proof fn lemma_suffixings_only(rows: Seq<Named>, n: nat)
    ensures
        forall|k: int|
            0 <= k < suffixings(rows, n).len() ==> #[trigger] suffixings(rows, n)[k] is Suffix,
    decreases n,
{
    if n > 0 {
        lemma_suffixings_only(rows, (n - 1) as nat);
    }
}

/// A migration that succeeds brings every schema that some version of the
/// program has made up to date.
pub proof fn a_migration_brings_the_schema_up_to_date(s: Schema, names: Seq<Named>)
    requires
        known(s),
    ensures
        up_to_date(migrated(s, names)),
{
    lemma_tables_made(s, names);
    reveal_with_fuel(migrated_by, 11);
    let made = migrated_by(s, 6, names);
    let renamed = migrated_by(s, 7, names);
    assert(renamed == stepped(made, Step::MessagesId, names));
    lemma_messages_id(made, names);
    lemma_message_columns(renamed, names);
    let typed = migrated_by(s, 10, names);
    lemma_session_columns(typed, names);
    assert(migrated_by(s, 11, names) == stepped(typed, Step::SessionsCurrent, names));
    assert(migrated_by(s, 12, names) == stepped(
        migrated_by(s, 11, names),
        Step::SessionsKeyToName,
        names,
    ));
    let used = migrated_by(s, 13, names);
    assert(used == stepped(migrated_by(s, 12, names), Step::SessionsLastUsed, names));
    lemma_suffixings_only(names, names.len());
    lemma_harmless(
        used,
        step_changes(Step::SessionsUniqueNames, columns_read(used, Step::SessionsUniqueNames), names),
    );
    assert(migrated_by(s, 14, names) == used);
    lemma_adding_messages(
        used.messages->0,
        used.sessions,
        Missing::MessagesSequence,
        seq![Done::Plain(SchemaChange::BackfillSequence)],
    );
    reveal_strlit("id");
    reveal_strlit("sequence");
    assert("id"@.len() == 2 && "sequence"@.len() == 8);
    let numbered = migrated_by(s, 15, names);
    assert(numbered == stepped(used, Step::MessagesSequence, names));
    lemma_one_change(numbered, Done::Plain(SchemaChange::IndexMessages));
    assert(migrated_by(s, 16, names) == numbered);
}

/// The change makes something that may already be there, and nothing else.
pub open spec fn only_creates(d: Done) -> bool {
    match d {
        Done::Plain(SchemaChange::CreateMessages) => true,
        Done::Plain(SchemaChange::CreateConfig) => true,
        Done::Plain(SchemaChange::CreateSessions) => true,
        Done::Plain(SchemaChange::IndexSessionIds) => true,
        Done::Plain(SchemaChange::CreateBranches) => true,
        Done::Plain(SchemaChange::CreateBranchMessages) => true,
        Done::Plain(SchemaChange::CreateBranchMetadata) => true,
        Done::Plain(SchemaChange::IndexSessionNames) => true,
        Done::Plain(SchemaChange::IndexMessages) => true,
        _ => false,
    }
}

proof fn lemma_nothing_to_suffix(rows: Seq<Named>, n: nat)
    requires
        all_different(rows),
        n <= rows.len(),
    ensures
        suffixings(rows, n) == Seq::<Done>::empty(),
    decreases n,
{
    if n > 0 {
        lemma_nothing_to_suffix(rows, (n - 1) as nat);
        assert(first_of_name(rows, n - 1));
    }
}

/// Migrating again changes nothing: on a schema that is up to date, with no
/// two sessions of one name, every step asks for nothing but what is there
/// already.
pub proof fn migrating_again_changes_nothing(s: Schema, names: Seq<Named>, i: int)
    requires
        up_to_date(s),
        all_different(names),
        0 <= i < steps().len(),
    ensures
        ({
            let list = step_changes(steps()[i], columns_read(s, steps()[i]), names);
            forall|k: int| 0 <= k < list.len() ==> only_creates(#[trigger] list[k])
        }),
        stepped(s, steps()[i], names) == s,
{
    lemma_nothing_to_suffix(names, names.len());
    let list = step_changes(steps()[i], columns_read(s, steps()[i]), names);
    assert forall|k: int| 0 <= k < list.len() implies only_creates(#[trigger] list[k]) by {}
    lemma_harmless(s, list);
}

// ---------------------------------------------------------------------
// Names that were shared
// ---------------------------------------------------------------------

/// The sessions after the suffixes of a list of changes were added.
pub open spec fn after_suffixes(rows: Seq<Named>, list: Seq<Done>) -> Seq<Named>
    decreases list.len(),
{
    if list.len() == 0 {
        rows
    } else {
        let before = after_suffixes(rows, list.drop_last());
        match list.last() {
            Done::Suffix(end, id) => before.map_values(
                |row: Named|
                    if row.id == id {
                        Named { name: row.name + end, ..row }
                    } else {
                        row
                    },
            ),
            _ => before,
        }
    }
}

/// The sessions have different ids.
pub open spec fn different_ids(rows: Seq<Named>) -> bool {
    forall|i: int, j: int|
        #![trigger rows[i], rows[j]]
        0 <= i < j < rows.len() ==> rows[i].id != rows[j].id
}

proof fn lemma_suffixes_differ(a: nat, b: nat, name: Seq<char>)
    requires
        name + suffix(a) == name + suffix(b),
    ensures
        a == b,
{
    reveal_strlit("-");
    assert((name + suffix(a)).skip(name.len() as int) =~= suffix(a));
    assert((name + suffix(b)).skip(name.len() as int) =~= suffix(b));
    assert(suffix(a).skip(1) =~= decimal(a));
    assert(suffix(b).skip(1) =~= decimal(b));
    lemma_decimal_injective(a, b);
}

/// A list that holds all of some different texts is no shorter than they are.
proof fn lemma_no_room(list: Seq<Seq<char>>, texts: Seq<Seq<char>>)
    requires
        texts.no_duplicates(),
        forall|i: int| 0 <= i < texts.len() ==> list.contains(#[trigger] texts[i]),
    ensures
        texts.len() <= list.len(),
{
    texts.unique_seq_to_set();
    list.lemma_cardinality_of_set();
    vstd::seq_lib::seq_to_set_is_finite(list);
    assert(texts.to_set().subset_of(list.to_set()));
    vstd::set_lib::lemma_len_subset(texts.to_set(), list.to_set());
}

/// The numbers are tried one after the other.
pub proof fn lemma_tried(name: Seq<char>, taken: Seq<Seq<char>>, from: nat, tries: nat)
    ensures
        ({
            let n = free_number(name, taken, from, tries);
            &&& from <= n <= from + tries
            &&& n < from + tries ==> !taken.contains(name + suffix(n))
            &&& forall|k: nat| from <= k < n ==> taken.contains(name + #[trigger] suffix(k))
        }),
    decreases tries,
{
    if tries > 0 && taken.contains(name + suffix(from)) {
        lemma_tried(name, taken, from + 1, (tries - 1) as nat);
    }
}

/// A number that makes a free name is always found.
pub proof fn lemma_free(name: Seq<char>, taken: Seq<Seq<char>>, from: nat)
    ensures
        !taken.contains(name + suffix(free_number(name, taken, from, taken.len()))),
{
    let n = free_number(name, taken, from, taken.len());
    lemma_tried(name, taken, from, taken.len());
    if taken.contains(name + suffix(n)) {
        let tried = Seq::new(taken.len() + 1, |k: int| name + suffix((from + k) as nat));
        assert forall|i: int| 0 <= i < tried.len() implies taken.contains(#[trigger] tried[i]) by {
            let k = (from + i) as nat;
            assert(tried[i] == name + suffix(k));
        }
        assert forall|i: int, j: int| 0 <= i < tried.len() && 0 <= j < tried.len() && i != j implies
            tried[i] != tried[j] by {
            if tried[i] == tried[j] {
                lemma_suffixes_differ((from + i) as nat, (from + j) as nat, name);
            }
        }
        lemma_no_room(taken, tried);
    }
}

proof fn lemma_new_names_at(rows: Seq<Named>, n: nat, i: int)
    requires
        0 <= i < n,
    ensures
        new_names(rows, n).len() == n,
        new_names(rows, n)[i] == if first_of_name(rows, i) {
            rows[i].name
        } else {
            rows[i].name + suffix(number_at(rows, i))
        },
    decreases n,
{
    if i < n - 1 {
        lemma_new_names_at(rows, (n - 1) as nat, i);
    } else if n > 1 {
        lemma_new_names_at(rows, (n - 1) as nat, 0);
    } else {
        assert(new_names(rows, 0) =~= Seq::<Seq<char>>::empty());
    }
}

/// The name that a shadowed session gets is none that a session has, or that
/// an older one was given.
proof fn lemma_new_name_is_free(rows: Seq<Named>, i: int)
    requires
        0 <= i < rows.len(),
    ensures
        ({
            let name = rows[i].name + suffix(number_at(rows, i));
            &&& forall|k: int| 0 <= k < rows.len() ==> (#[trigger] rows[k]).name != name
            &&& forall|k: int| 0 <= k < i ==> #[trigger] new_names(rows, i as nat)[k] != name
        }),
{
    let given = new_names(rows, i as nat);
    let taken = names_of(rows) + given;
    let name = rows[i].name + suffix(number_at(rows, i));
    if i > 0 {
        lemma_new_names_at(rows, i as nat, 0);
    }
    lemma_free(rows[i].name, taken, shadowed(rows, i as nat) + 2);
    assert forall|k: int| 0 <= k < rows.len() implies (#[trigger] rows[k]).name != name by {
        assert(taken[k] == rows[k].name);
    }
    assert forall|k: int| 0 <= k < i implies #[trigger] given[k] != name by {
        assert(taken[rows.len() + k] == given[k]);
    }
}

proof fn lemma_new_names_differ(rows: Seq<Named>, i: int, j: int)
    requires
        0 <= i < j < rows.len(),
    ensures
        new_names(rows, rows.len())[i] != new_names(rows, rows.len())[j],
{
    lemma_new_names_at(rows, rows.len(), i);
    lemma_new_names_at(rows, rows.len(), j);
    lemma_new_names_at(rows, j as nat, i);
    lemma_new_name_is_free(rows, i);
    lemma_new_name_is_free(rows, j);
}

proof fn lemma_suffixed_so_far(rows: Seq<Named>, n: nat)
    requires
        different_ids(rows),
        n <= rows.len(),
    ensures
        ({
            let now = after_suffixes(rows, suffixings(rows, n));
            &&& now.len() == rows.len()
            &&& forall|i: int|
                0 <= i < rows.len() ==> (#[trigger] now[i]).id == rows[i].id && now[i].name == if i
                    < n {
                    new_names(rows, n)[i]
                } else {
                    rows[i].name
                }
        }),
    decreases n,
{
    if n > 0 {
        let before = (n - 1) as nat;
        lemma_suffixed_so_far(rows, before);
        lemma_new_names_at(rows, n, n - 1);
        if before > 0 {
            lemma_new_names_at(rows, before, 0);
        }
        let list = suffixings(rows, n);
        let earlier = after_suffixes(rows, suffixings(rows, before));
        let now = after_suffixes(rows, list);
        if !first_of_name(rows, n - 1) {
            assert(list.drop_last() =~= suffixings(rows, before));
        }
        assert forall|i: int| 0 <= i < rows.len() implies (#[trigger] now[i]).id == rows[i].id
            && now[i].name == if i < n {
            new_names(rows, n)[i]
        } else {
            rows[i].name
        } by {
            assert(earlier[i].id == rows[i].id);
            if i < n - 1 {
                assert(new_names(rows, n)[i] == new_names(rows, before)[i]);
                assert(rows[i].id != rows[n - 1].id);
            } else if i > n - 1 {
                assert(rows[n - 1].id != rows[i].id);
            }
        }
    }
}

/// Once the suffixes are added no two sessions have one name, so that the
/// index can be made, and the oldest session of each name has kept it.
pub proof fn shared_names_become_different(rows: Seq<Named>)
    requires
        different_ids(rows),
    ensures
        ({
            let now = after_suffixes(rows, suffixings(rows, rows.len()));
            &&& now.len() == rows.len()
            &&& all_different(now)
            &&& forall|i: int|
                0 <= i < rows.len() ==> (#[trigger] now[i]).id == rows[i].id && (first_of_name(
                    rows,
                    i,
                ) ==> now[i].name == rows[i].name)
        }),
{
    let now = after_suffixes(rows, suffixings(rows, rows.len()));
    lemma_suffixed_so_far(rows, rows.len());
    assert forall|i: int, j: int|
        #![trigger now[i], now[j]]
        0 <= i < j < now.len() implies now[i].name != now[j].name by {
        lemma_new_names_differ(rows, i, j);
    }
    assert forall|i: int| 0 <= i < rows.len() implies (#[trigger] now[i]).id == rows[i].id && (
    first_of_name(rows, i) ==> now[i].name == rows[i].name) by {
        lemma_new_names_at(rows, rows.len(), i);
    }
}

} // verus!
