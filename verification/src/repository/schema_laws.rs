//! What a migration changes, column by column and name by name.

#[allow(unused_imports)]
use crate::order::{lemma_rising_push, rising};
#[allow(unused_imports)]
use crate::repository::schema::{
    all_done, cols, first_of_name, free_number, has_column, lemma_free, lemma_tried, named,
    names_of, new_names, number_at, shadowed, step_changes, steps, suffix, suffixings, Col, Column,
    Done, Missing, Named, Reading, SchemaChange, Step, Table,
};
#[allow(unused_imports)]
use crate::repository::statement::Cell;
#[allow(unused_imports)]
use crate::text::{decimal, same_but_for_case};
use vstd::prelude::*;

verus! {

// ---------------------------------------------------------------------
// Columns
// ---------------------------------------------------------------------

/// A column is added exactly when no column of the table has its name.
pub proof fn a_missing_column_is_added(columns: Seq<Col>, names: Seq<Named>)
    ensures
        (exists|i: int| 0 <= i < columns.len() && (#[trigger] columns[i]).name == "session_id"@)
            ==> step_changes(Step::MessagesSessionId, columns, names).len() == 0,
        (forall|i: int| 0 <= i < columns.len() ==> (#[trigger] columns[i]).name != "session_id"@)
            ==> step_changes(Step::MessagesSessionId, columns, names) == seq![
                Done::Plain(SchemaChange::AddColumn(Missing::MessagesSessionId)),
            ],
        (exists|i: int| 0 <= i < columns.len() && (#[trigger] columns[i]).name == "role"@)
            ==> step_changes(Step::MessagesRole, columns, names).len() == 0,
        (forall|i: int| 0 <= i < columns.len() ==> (#[trigger] columns[i]).name != "role"@)
            ==> step_changes(Step::MessagesRole, columns, names) == seq![
                Done::Plain(SchemaChange::AddColumn(Missing::MessagesRole)),
            ],
        (exists|i: int| 0 <= i < columns.len() && (#[trigger] columns[i]).name == "current"@)
            ==> step_changes(Step::SessionsCurrent, columns, names).len() == 0,
        (forall|i: int| 0 <= i < columns.len() ==> (#[trigger] columns[i]).name != "current"@)
            ==> step_changes(Step::SessionsCurrent, columns, names) == seq![
                Done::Plain(SchemaChange::AddColumn(Missing::SessionsCurrent)),
            ],
{
}

/// The two columns that older rows need a value in are filled right after they
/// are added, and only then.
pub proof fn a_column_that_is_added_is_filled(columns: Seq<Col>, names: Seq<Named>)
    ensures
        (exists|i: int| 0 <= i < columns.len() && (#[trigger] columns[i]).name == "last_used_at"@)
            ==> step_changes(Step::SessionsLastUsed, columns, names).len() == 0,
        (forall|i: int| 0 <= i < columns.len() ==> (#[trigger] columns[i]).name != "last_used_at"@)
            ==> step_changes(Step::SessionsLastUsed, columns, names) == seq![
                Done::Plain(SchemaChange::AddColumn(Missing::SessionsLastUsed)),
                Done::Plain(SchemaChange::BackfillLastUsed),
            ],
        (exists|i: int| 0 <= i < columns.len() && (#[trigger] columns[i]).name == "sequence"@)
            ==> step_changes(Step::MessagesSequence, columns, names).len() == 0,
        (forall|i: int| 0 <= i < columns.len() ==> (#[trigger] columns[i]).name != "sequence"@)
            ==> step_changes(Step::MessagesSequence, columns, names) == seq![
                Done::Plain(SchemaChange::AddColumn(Missing::MessagesSequence)),
                Done::Plain(SchemaChange::BackfillSequence),
            ],
{
    assert(seq![Done::Plain(SchemaChange::AddColumn(Missing::SessionsLastUsed))] + seq![
        Done::Plain(SchemaChange::BackfillLastUsed),
    ] =~= seq![
        Done::Plain(SchemaChange::AddColumn(Missing::SessionsLastUsed)),
        Done::Plain(SchemaChange::BackfillLastUsed),
    ]);
    assert(seq![Done::Plain(SchemaChange::AddColumn(Missing::MessagesSequence))] + seq![
        Done::Plain(SchemaChange::BackfillSequence),
    ] =~= seq![
        Done::Plain(SchemaChange::AddColumn(Missing::MessagesSequence)),
        Done::Plain(SchemaChange::BackfillSequence),
    ]);
}

/// Of the two columns on the kind of a message, each is added by itself.
pub proof fn the_columns_of_a_kind_are_added_by_themselves(
    columns: Seq<Col>,
    names: Seq<Named>,
    kind: bool,
    metadata: bool,
)
    requires
        kind <==> exists|i: int|
            0 <= i < columns.len() && (#[trigger] columns[i]).name == "message_type"@,
        metadata <==> exists|i: int|
            0 <= i < columns.len() && (#[trigger] columns[i]).name == "compaction_metadata"@,
    ensures
        ({
            let list = step_changes(Step::MessagesTypes, columns, names);
            &&& kind && metadata ==> list.len() == 0
            &&& !kind && metadata ==> list == seq![
                Done::Plain(SchemaChange::AddColumn(Missing::MessagesType)),
            ]
            &&& kind && !metadata ==> list == seq![
                Done::Plain(SchemaChange::AddColumn(Missing::MessagesMetadata)),
            ]
            &&& !kind && !metadata ==> list == seq![
                Done::Plain(SchemaChange::AddColumn(Missing::MessagesType)),
                Done::Plain(SchemaChange::AddColumn(Missing::MessagesMetadata)),
            ]
        }),
{
    assert(has_column(columns, "message_type"@) == kind);
    assert(has_column(columns, "compaction_metadata"@) == metadata);
    let list = step_changes(Step::MessagesTypes, columns, names);
    if !kind && !metadata {
        assert(list =~= seq![
            Done::Plain(SchemaChange::AddColumn(Missing::MessagesType)),
            Done::Plain(SchemaChange::AddColumn(Missing::MessagesMetadata)),
        ]);
    } else if !kind {
        assert(list =~= seq![Done::Plain(SchemaChange::AddColumn(Missing::MessagesType))]);
    } else if !metadata {
        assert(list =~= seq![Done::Plain(SchemaChange::AddColumn(Missing::MessagesMetadata))]);
    }
}

/// A messages table whose ids are numbers, in whatever case its kind is
/// written, is put aside, made anew and filled from the old one, which then
/// goes; no other is touched.
pub proof fn numbered_messages_are_copied(columns: Seq<Col>, names: Seq<Named>, at: int)
    ensures
        0 <= at < columns.len() && columns[at].name == "id"@ && same_but_for_case(
            columns[at].kind,
            "INTEGER"@,
        ) ==> step_changes(Step::MessagesId, columns, names) == seq![
            Done::Plain(SchemaChange::RenameMessages),
            Done::Plain(SchemaChange::CreateMessages),
            Done::Plain(SchemaChange::CopyMessages),
            Done::Plain(SchemaChange::DropOldMessages),
        ],
        (forall|i: int|
            0 <= i < columns.len() && (#[trigger] columns[i]).name == "id"@ ==> !same_but_for_case(
                columns[i].kind,
                "INTEGER"@,
            )) ==> step_changes(Step::MessagesId, columns, names).len() == 0,
{
}

/// The heading of the names is changed exactly where it is the old one.
pub proof fn an_old_heading_is_changed(columns: Seq<Col>, names: Seq<Named>)
    ensures
        (exists|i: int| 0 <= i < columns.len() && (#[trigger] columns[i]).name == "key"@)
            ==> step_changes(Step::SessionsKeyToName, columns, names) == seq![
            Done::Plain(SchemaChange::RenameKeyToName),
        ],
        (forall|i: int| 0 <= i < columns.len() ==> (#[trigger] columns[i]).name != "key"@)
            ==> step_changes(Step::SessionsKeyToName, columns, names).len() == 0,
{
}

/// The steps that make tables and indexes make them whatever was read.
pub proof fn tables_and_indexes_are_made(columns: Seq<Col>, names: Seq<Named>)
    ensures
        step_changes(Step::CreateMessages, columns, names) == seq![
            Done::Plain(SchemaChange::CreateMessages),
        ],
        step_changes(Step::CreateConfig, columns, names) == seq![
            Done::Plain(SchemaChange::CreateConfig),
        ],
        step_changes(Step::CreateSessions, columns, names) == seq![
            Done::Plain(SchemaChange::CreateSessions),
            Done::Plain(SchemaChange::IndexSessionIds),
        ],
        step_changes(Step::CreateBranches, columns, names) == seq![
            Done::Plain(SchemaChange::CreateBranches),
        ],
        step_changes(Step::CreateBranchMessages, columns, names) == seq![
            Done::Plain(SchemaChange::CreateBranchMessages),
        ],
        step_changes(Step::CreateBranchMetadata, columns, names) == seq![
            Done::Plain(SchemaChange::CreateBranchMetadata),
        ],
        step_changes(Step::MessageIndexes, columns, names) == seq![
            Done::Plain(SchemaChange::IndexMessages),
        ],
{
}

/// Tables are made before their columns are looked at, names are made unique
/// once they have their heading, and messages are numbered before they are
/// indexed.
pub proof fn each_step_has_its_place()
    ensures
        steps().len() == 16,
        steps()[0] is CreateMessages,
        steps()[1] is CreateConfig,
        steps()[2] is CreateSessions,
        steps()[3] is CreateBranches,
        steps()[4] is CreateBranchMessages,
        steps()[5] is CreateBranchMetadata,
        steps()[6] is MessagesId,
        steps()[7] is MessagesSessionId,
        steps()[8] is MessagesRole,
        steps()[9] is MessagesTypes,
        steps()[10] is SessionsCurrent,
        steps()[11] is SessionsKeyToName,
        steps()[12] is SessionsLastUsed,
        steps()[13] is SessionsUniqueNames,
        steps()[14] is MessagesSequence,
        steps()[15] is MessageIndexes,
{
}

/// A step that adds to a table reads the columns of that table, and the one
/// that makes names unique reads the names.
pub proof fn a_step_reads_what_it_decides_on()
    ensures
        Step::MessagesId.needs() == Reading::Columns(Table::Messages),
        Step::MessagesSessionId.needs() == Reading::Columns(Missing::MessagesSessionId.table()),
        Step::MessagesRole.needs() == Reading::Columns(Missing::MessagesRole.table()),
        Step::MessagesTypes.needs() == Reading::Columns(Missing::MessagesType.table()),
        Step::MessagesTypes.needs() == Reading::Columns(Missing::MessagesMetadata.table()),
        Step::MessagesSequence.needs() == Reading::Columns(Missing::MessagesSequence.table()),
        Step::SessionsCurrent.needs() == Reading::Columns(Missing::SessionsCurrent.table()),
        Step::SessionsKeyToName.needs() == Reading::Columns(Table::Sessions),
        Step::SessionsLastUsed.needs() == Reading::Columns(Missing::SessionsLastUsed.table()),
        Step::SessionsUniqueNames.needs() is Names,
        Step::CreateMessages.needs() is Nothing,
        Step::CreateSessions.needs() is Nothing,
        Step::MessageIndexes.needs() is Nothing,
{
}

// ---------------------------------------------------------------------
// Statements
// ---------------------------------------------------------------------

/// Each change is one statement.
pub proof fn each_change_has_its_statement()
    ensures
        SchemaChange::CreateMessages.sql()
            == "CREATE TABLE IF NOT EXISTS messages (id TEXT NOT NULL PRIMARY KEY, session_id TEXT NOT NULL, role TEXT NOT NULL, content TEXT NOT NULL)"@,
        SchemaChange::CreateConfig.sql()
            == "CREATE TABLE IF NOT EXISTS config (id INTEGER PRIMARY KEY, key TEXT NOT NULL, value TEXT NOT NULL)"@,
        SchemaChange::CreateSessions.sql()
            == "CREATE TABLE IF NOT EXISTS sessions (id TEXT NOT NULL, name TEXT NOT NULL, expires_at TEXT NOT NULL, current INTEGER NOT NULL DEFAULT 0)"@,
        SchemaChange::IndexSessionIds.sql()
            == "CREATE UNIQUE INDEX IF NOT EXISTS idx_sessions_id ON sessions (id)"@,
        SchemaChange::CreateBranches.sql()
            == "CREATE TABLE IF NOT EXISTS conversation_branches (id TEXT PRIMARY KEY, session_id TEXT NOT NULL, parent_branch_id TEXT, branch_name TEXT, description TEXT, created_at DATETIME DEFAULT CURRENT_TIMESTAMP, last_activity DATETIME DEFAULT CURRENT_TIMESTAMP, status TEXT DEFAULT 'active', FOREIGN KEY (session_id) REFERENCES sessions (id), FOREIGN KEY (parent_branch_id) REFERENCES conversation_branches (id))"@,
        SchemaChange::CreateBranchMessages.sql()
            == "CREATE TABLE IF NOT EXISTS branch_messages (id TEXT PRIMARY KEY, branch_id TEXT NOT NULL, message_id TEXT NOT NULL, sequence_number INTEGER NOT NULL, FOREIGN KEY (branch_id) REFERENCES conversation_branches (id), FOREIGN KEY (message_id) REFERENCES messages (id))"@,
        SchemaChange::CreateBranchMetadata.sql()
            == "CREATE TABLE IF NOT EXISTS branch_metadata (branch_id TEXT NOT NULL, key TEXT NOT NULL, value TEXT NOT NULL, PRIMARY KEY (branch_id, key), FOREIGN KEY (branch_id) REFERENCES conversation_branches (id))"@,
        SchemaChange::RenameMessages.sql()
            == "ALTER TABLE messages RENAME TO messages_old"@,
        SchemaChange::CopyMessages.sql()
            == "INSERT INTO messages (id, session_id, role, content) SELECT CAST(id AS TEXT), session_id, role, content FROM messages_old"@,
        SchemaChange::DropOldMessages.sql()
            == "DROP TABLE messages_old"@,
        SchemaChange::RenameKeyToName.sql()
            == "ALTER TABLE sessions RENAME COLUMN key TO name"@,
        SchemaChange::BackfillLastUsed.sql()
            == "UPDATE sessions SET last_used_at = datetime(expires_at, '-24 hours') WHERE last_used_at IS NULL"@,
        SchemaChange::BackfillSequence.sql()
            == "UPDATE messages SET sequence = rowid"@,
        SchemaChange::IndexSessionNames.sql()
            == "CREATE UNIQUE INDEX IF NOT EXISTS idx_sessions_name ON sessions (name)"@,
        SchemaChange::IndexMessages.sql()
            == "CREATE INDEX IF NOT EXISTS idx_messages_session ON messages (session_id, sequence)"@,
{
}

/// Each column is added to its table under its name, with its definition.
pub proof fn each_column_has_its_definition()
    ensures
        SchemaChange::AddColumn(Missing::MessagesSessionId).sql() == "ALTER TABLE "@ + "messages"@
            + " ADD COLUMN "@ + "session_id"@ + " "@ + "TEXT NOT NULL"@,
        SchemaChange::AddColumn(Missing::MessagesRole).sql() == "ALTER TABLE "@ + "messages"@
            + " ADD COLUMN "@ + "role"@ + " "@ + "TEXT NOT NULL"@,
        SchemaChange::AddColumn(Missing::MessagesType).sql() == "ALTER TABLE "@ + "messages"@
            + " ADD COLUMN "@ + "message_type"@ + " "@ + "TEXT NOT NULL DEFAULT 'standard'"@,
        SchemaChange::AddColumn(Missing::MessagesMetadata).sql() == "ALTER TABLE "@ + "messages"@
            + " ADD COLUMN "@ + "compaction_metadata"@ + " "@ + "TEXT"@,
        SchemaChange::AddColumn(Missing::MessagesSequence).sql() == "ALTER TABLE "@ + "messages"@
            + " ADD COLUMN "@ + "sequence"@ + " "@ + "INTEGER NOT NULL DEFAULT 0"@,
        SchemaChange::AddColumn(Missing::SessionsCurrent).sql() == "ALTER TABLE "@ + "sessions"@
            + " ADD COLUMN "@ + "current"@ + " "@ + "INTEGER NOT NULL DEFAULT 0"@,
        SchemaChange::AddColumn(Missing::SessionsLastUsed).sql() == "ALTER TABLE "@ + "sessions"@
            + " ADD COLUMN "@ + "last_used_at"@ + " "@ + "TEXT"@,
{
}

/// A suffix is put behind the name of the one session that has the id.
pub proof fn a_suffix_is_put_behind_one_name(suffix: String, id: String)
    ensures
        (SchemaChange::SuffixName { suffix, id }).sql()
            == "UPDATE sessions SET name = name || ?1 WHERE id = ?2"@,
        (SchemaChange::SuffixName { suffix, id }).params().len() == 2,
        (SchemaChange::SuffixName { suffix, id }).params()[0] == Cell::Text(suffix@),
        (SchemaChange::SuffixName { suffix, id }).params()[1] == Cell::Text(id@),
{
}

// ---------------------------------------------------------------------
// Shared names
// ---------------------------------------------------------------------

proof fn lemma_shadowed_positions(rows: Seq<Named>, n: nat) -> (at: Seq<int>)
    requires
        n <= rows.len(),
    ensures
        rising(at, n as int),
        shadowed(rows, n) == at.len(),
        suffixings(rows, n).len() == at.len(),
        forall|k: int|
            0 <= k < at.len() ==> #[trigger] suffixings(rows, n)[k] == Done::Suffix(
                suffix(number_at(rows, at[k])),
                rows[at[k]].id,
            ),
        forall|k: int| 0 <= k < at.len() ==> shadowed(rows, #[trigger] at[k] as nat) == k,
        forall|i: int| #[trigger]
            at.contains(i) <==> 0 <= i < n && exists|j: int|
                0 <= j < i && (#[trigger] rows[j]).name == rows[i].name,
    decreases n,
{
    if n == 0 {
        Seq::empty()
    } else {
        let before = (n - 1) as nat;
        let last = n - 1;
        let rest = lemma_shadowed_positions(rows, before);
        lemma_rising_push(rest, last);
        let at = if first_of_name(rows, last) {
            rest
        } else {
            rest.push(last)
        };
        assert forall|k: int| 0 <= k < at.len() implies #[trigger] suffixings(rows, n)[k]
            == Done::Suffix(suffix(number_at(rows, at[k])), rows[at[k]].id) by {
            if k < rest.len() {
                assert(suffixings(rows, before)[k] == Done::Suffix(
                    suffix(number_at(rows, rest[k])),
                    rows[rest[k]].id,
                ));
            }
        }
        assert forall|k: int| 0 <= k < at.len() implies shadowed(rows, #[trigger] at[k] as nat)
            == k by {
            if k < rest.len() {
                assert(at[k] == rest[k]);
            }
        }
        assert forall|i: int| #[trigger] at.contains(i) <==> 0 <= i < n && exists|j: int|
            0 <= j < i && (#[trigger] rows[j]).name == rows[i].name by {
            assert(rest.contains(i) <==> 0 <= i < before && exists|j: int|
                0 <= j < i && (#[trigger] rows[j]).name == rows[i].name);
            assert(rest.push(last).contains(i) <==> i == last || rest.contains(i));
        }
        at
    }
}

/// Exactly the sessions whose name an older one has get a suffix, one each and
/// the oldest first, and then the index on names is made. The suffix is a
/// hyphen and a number. The first of them tries two first, the next three, and
/// so on; each takes the first number from there on that makes a name that no
/// session has or was given.
pub proof fn shadowed_sessions_are_numbered(names: Seq<Named>)
    ensures
        exists|at: Seq<int>| #[trigger]
            rising(at, names.len() as int) && step_changes(
                Step::SessionsUniqueNames,
                Seq::empty(),
                names,
            ).len() == at.len() + 1 && (forall|k: int|
                0 <= k < at.len() ==> (#[trigger] step_changes(
                    Step::SessionsUniqueNames,
                    Seq::empty(),
                    names,
                )[k] matches Done::Suffix(end, id) && id == names[at[k]].id && {
                    let number = number_at(names, at[k]);
                    let taken = names_of(names) + new_names(names, at[k] as nat);
                    &&& end == seq!['-'] + decimal(number)
                    &&& number >= k + 2
                    &&& !taken.contains(names[at[k]].name + (seq!['-'] + decimal(number)))
                    &&& forall|n: nat|
                        k + 2 <= n < number ==> taken.contains(
                            names[at[k]].name + (seq!['-'] + #[trigger] decimal(n)),
                        )
                })) && (forall|i: int| #[trigger]
                at.contains(i) <==> 0 <= i < names.len() && exists|j: int|
                    0 <= j < i && (#[trigger] names[j]).name == names[i].name),
        step_changes(Step::SessionsUniqueNames, Seq::empty(), names).last() == Done::Plain(
            SchemaChange::IndexSessionNames,
        ),
{
    reveal_strlit("-");
    assert("-"@ =~= seq!['-']);
    let at = lemma_shadowed_positions(names, names.len());
    let list = step_changes(Step::SessionsUniqueNames, Seq::empty(), names);
    assert forall|k: int| 0 <= k < at.len() implies (#[trigger] list[k] matches Done::Suffix(
        end,
        id,
    ) && id == names[at[k]].id && {
        let number = number_at(names, at[k]);
        let taken = names_of(names) + new_names(names, at[k] as nat);
        &&& end == seq!['-'] + decimal(number)
        &&& number >= k + 2
        &&& !taken.contains(names[at[k]].name + (seq!['-'] + decimal(number)))
        &&& forall|n: nat|
            k + 2 <= n < number ==> taken.contains(
                names[at[k]].name + (seq!['-'] + #[trigger] decimal(n)),
            )
    }) by {
        let i = at[k];
        let taken = names_of(names) + new_names(names, i as nat);
        assert(list[k] == suffixings(names, names.len())[k]);
        assert(shadowed(names, i as nat) == k);
        lemma_free(names[i].name, taken, (k + 2) as nat);
        lemma_tried(names[i].name, taken, (k + 2) as nat, taken.len());
        let number = number_at(names, i);
        assert(number == free_number(names[i].name, taken, (k + 2) as nat, taken.len()));
        assert forall|n: nat| k + 2 <= n < number implies taken.contains(
            names[i].name + (seq!['-'] + #[trigger] decimal(n)),
        ) by {
            assert(taken.contains(names[i].name + suffix(n)));
        }
    }
    assert(rising(at, names.len() as int));
}

/// A session is read as its id and its name, in this order, and a column as
/// its name and its kind.
pub proof fn what_is_read_is_seen_as_it_is(
    rows: Seq<(String, String)>,
    columns: Seq<Column>,
    i: int,
    k: int,
)
    requires
        0 <= i < rows.len(),
        0 <= k < columns.len(),
    ensures
        named(rows).len() == rows.len(),
        named(rows)[i].id == rows[i].0@,
        named(rows)[i].name == rows[i].1@,
        cols(columns).len() == columns.len(),
        cols(columns)[k].name == columns[k].name@,
        cols(columns)[k].kind == columns[k].kind@,
{
}

/// A change is seen as what it is, a suffix by its texts.
pub proof fn a_change_is_seen_as_it_is(list: Seq<SchemaChange>, i: int)
    requires
        0 <= i < list.len(),
    ensures
        all_done(list).len() == list.len(),
        list[i] matches SchemaChange::SuffixName { suffix, id } ==> all_done(list)[i]
            == Done::Suffix(suffix@, id@),
        !(list[i] is SuffixName) ==> all_done(list)[i] == Done::Plain(list[i]),
{
}

} // verus!
