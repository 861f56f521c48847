//! Repair for conversations that were inserted more than once.
//!
//! Before ids were written back into the live conversation, every message
//! still looked unsaved on the next turn, so each turn re-inserted the whole
//! conversation. A 20-turn chat became 420 stored rows, and resuming it
//! replayed every message several times over.
//!
//! Duplicates are *marked*, never deleted: the text stays in the database,
//! out of the conversation, and undoing the repair puts it all back.

use crate::order::order_positions;
#[allow(unused_imports)]
use crate::order::{arranged, inserted, lemma_stable_order_range, stable_order};
use crate::screen::{Line, Page, Style};
#[allow(unused_imports)]
use crate::screen::{empty_line, plain, styled, Run};
#[allow(unused_imports)]
use crate::session::message_repository::PENDING;
use crate::session::message_repository::{StoredRow, DUPLICATE};
use crate::session::model::Session;
#[allow(unused_imports)]
use crate::session::model::STANDARD;
use crate::session::redaction::normalise;
#[allow(unused_imports)]
use crate::session::redaction::normalised;
use crate::session::replays::strip_replays;
#[allow(unused_imports)]
use crate::session::replays::{
    a_dropped_row_has_a_surviving_copy_behind_it, keys_at, positions, survivors,
    survivors_keep_their_order, survivors_lose_nothing, the_last_two_rows_survive,
};
use crate::session::tables::Write;
#[allow(unused_imports)]
use crate::session::tables::{
    after_all, changes, consistent, conversation, in_conversation, marked, pending, restored,
    with_kind, Change, MessageRow, Tables, Turn,
};
use crate::text::{align_left, align_right, concat, copy_texts, decimal_text, same, truncate};
#[allow(unused_imports)]
use crate::text::{decimal, left_aligned, right_aligned, texts, truncated};
use std::collections::hash_map::DefaultHasher;
use std::hash::Hasher;
use vstd::prelude::*;
#[allow(unused_imports)]
use vstd::std_specs::hash::DefaultHasherAdditionalSpecFns;
#[allow(unused_imports)]
use vstd::utf8::encode_utf8;

verus! {

// ---------------------------------------------------------------------
// Keys
// ---------------------------------------------------------------------

/// The key by which messages are compared: the hash of the role and the text,
/// each closed by a byte that occurs in no text.
pub open spec fn key_of(role: Seq<char>, content: Seq<char>) -> u64 {
    DefaultHasher::spec_finish(
        seq![encode_utf8(role), seq![0xffu8], encode_utf8(content), seq![0xffu8]],
    )
}

pub fn hash_key(role: &str, content: &str) -> (r: u64)
    ensures
        r == key_of(role@, content@),
{
    let mut hasher = DefaultHasher::new();
    let end: [u8; 1] = [0xffu8];
    hasher.write(role.as_bytes());
    hasher.write(&end);
    hasher.write(content.as_bytes());
    hasher.write(&end);
    proof {
        assert(end@ =~= seq![0xffu8]);
        assert(hasher@ =~= seq![
            encode_utf8(role@),
            seq![0xffu8],
            encode_utf8(content@),
            seq![0xffu8],
        ]);
    }
    hasher.finish()
}

/// The key of a row.
pub open spec fn row_key(row: StoredRow, redactions: Seq<Seq<char>>) -> u64 {
    key_of(row.role@, normalised(row.content@, redactions))
}

/// The keys of the rows.
pub open spec fn row_keys(rows: Seq<StoredRow>, redactions: Seq<Seq<char>>) -> Seq<u64> {
    rows.map_values(|row: StoredRow| row_key(row, redactions))
}

/// The positions of the rows that are not replays.
pub open spec fn kept_rows(rows: Seq<StoredRow>, redactions: Seq<Seq<char>>) -> Seq<int> {
    survivors(row_keys(rows, redactions))
}

/// Rebuild a conversation from a table that also contains its replays.
///
/// Each turn re-inserted every message stored so far, so the conversation
/// appears as a series of nested prefixes: `B1 B2 … Bk`, where every block
/// opens with the one before it and the last block is the conversation as it
/// finally stood.
///
/// The signature that leaves is a chunk immediately followed by an identical
/// chunk. At each position take the *longest* such chunk, drop it as a replay
/// and carry on; when there is none, the row is real and is kept. Nothing is
/// assumed about how many messages a turn adds, so tool calls, retries and
/// compaction do not throw it off, and anything that does not fit the pattern
/// is kept untouched.
pub fn keep_indices(rows: &Vec<StoredRow>, redactions: &Vec<String>) -> (keep: Vec<usize>)
    ensures
        positions(keep@) == kept_rows(rows@, texts(redactions@)),
        forall|i: int| 0 <= i < keep@.len() ==> #[trigger] keep@[i] < rows@.len(),
        forall|i: int, j: int| 0 <= i < j < keep@.len() ==> #[trigger] keep@[i] < #[trigger] keep@[j],
        forall|i: usize|
            i < rows@.len() && !#[trigger] keep@.contains(i) ==> exists|j: int|
                0 <= j < keep@.len() && i < #[trigger] keep@[j] && DefaultHasher::spec_finish(
                    seq![
                        encode_utf8(rows@[keep@[j] as int].role@),
                        seq![0xffu8],
                        encode_utf8(
                            normalised(rows@[keep@[j] as int].content@, texts(redactions@)),
                        ),
                        seq![0xffu8],
                    ],
                ) == DefaultHasher::spec_finish(
                    seq![
                        encode_utf8(rows@[i as int].role@),
                        seq![0xffu8],
                        encode_utf8(normalised(rows@[i as int].content@, texts(redactions@))),
                        seq![0xffu8],
                    ],
                ),
{
    let ghost terms = texts(redactions@);
    let mut keys: Vec<u64> = Vec::new();
    for i in 0..rows.len()
        invariant
            terms == texts(redactions@),
            keys@ == row_keys(rows@.take(i as int), terms),
    {
        assert(rows@.take(i + 1) =~= rows@.take(i as int).push(rows@[i as int]));
        let content = normalise(rows[i].content.as_str(), redactions);
        keys.push(hash_key(rows[i].role.as_str(), content.as_str()));
        assert(keys@ =~= row_keys(rows@.take(i + 1), terms));
    }
    assert(rows@.take(rows@.len() as int) =~= rows@);
    let keep = strip_replays(&keys);
    proof {
        let kept = kept_rows(rows@, terms);
        survivors_keep_their_order(keys@);
        assert forall|i: int| 0 <= i < keep@.len() implies #[trigger] keep@[i] < rows@.len() by {
            assert(positions(keep@)[i] == kept[i]);
        }
        assert forall|i: int, j: int| 0 <= i < j < keep@.len() implies #[trigger] keep@[i]
            < #[trigger] keep@[j] by {
            assert(positions(keep@)[i] == kept[i] && positions(keep@)[j] == kept[j]);
        }
        assert forall|i: usize| i < rows@.len() && !#[trigger] keep@.contains(i) implies exists|
            j: int,
        |
            0 <= j < keep@.len() && i < #[trigger] keep@[j] && row_key(
                rows@[keep@[j] as int],
                terms,
            ) == row_key(rows@[i as int], terms) by {
            if kept.contains(i as int) {
                let j = choose|j: int| 0 <= j < kept.len() && kept[j] == i;
                assert(positions(keep@)[j] == keep@[j]);
                assert(keep@[j] == i);
            }
            a_dropped_row_is_kept_as_a_later_copy(rows@, terms, i as int);
            let j = choose|j: int|
                0 <= j < kept.len() && i < #[trigger] kept[j] < rows@.len() && row_key(
                    rows@[kept[j]],
                    terms,
                ) == row_key(rows@[i as int], terms);
            assert(positions(keep@)[j] == keep@[j]);
            assert(i < keep@[j]);
        }
    }
    keep
}

// ---------------------------------------------------------------------
// One session
// ---------------------------------------------------------------------

/// What a repair would do, or did, to one session.
#[derive(Debug)]
pub struct SessionRepair {
    pub name: String,
    pub stored: usize,
    pub duplicates: Vec<String>,
}

/// What a repair found, by its texts.
pub struct Found {
    pub name: Seq<char>,
    pub stored: int,
    pub duplicates: Seq<Seq<char>>,
}

impl View for SessionRepair {
    type V = Found;

    open spec fn view(&self) -> Found {
        Found { name: self.name@, stored: self.stored as int, duplicates: texts(self.duplicates@) }
    }
}

impl SessionRepair {
    /// No more is set aside than was there.
    pub open spec fn wf(self) -> bool {
        self.duplicates@.len() <= self.stored
    }

    pub fn kept(&self) -> (r: usize)
        requires
            self.wf(),
        ensures
            r == self.stored - self.duplicates@.len(),
    {
        self.stored - self.duplicates.len()
    }
}

impl Clone for SessionRepair {
    fn clone(&self) -> (r: SessionRepair)
        ensures
            r@ == self@,
            r.wf() == self.wf(),
    {
        SessionRepair {
            name: self.name.clone(),
            stored: self.stored,
            duplicates: copy_texts(&self.duplicates),
        }
    }
}

/// The row still belongs to the conversation.
pub open spec fn active(row: StoredRow) -> bool {
    row.message_type@ != DUPLICATE@
}

/// How many rows still belong to the conversation.
pub open spec fn active_count(rows: Seq<StoredRow>) -> int
    decreases rows.len(),
{
    if rows.len() == 0 {
        0
    } else {
        active_count(rows.drop_last()) + if active(rows.last()) {
            1int
        } else {
            0
        }
    }
}

/// The ids of the rows that still belong to the conversation but are not
/// among the kept positions.
pub open spec fn newly_found(rows: Seq<StoredRow>, keep: Seq<int>) -> Seq<Seq<char>>
    decreases rows.len(),
{
    if rows.len() == 0 {
        Seq::empty()
    } else {
        let rest = newly_found(rows.drop_last(), keep);
        if active(rows.last()) && !keep.contains(rows.len() - 1) {
            rest.push(rows.last().id@)
        } else {
            rest
        }
    }
}

/// What a repair finds in a session.
pub open spec fn found_in(
    name: Seq<char>,
    rows: Seq<StoredRow>,
    redactions: Seq<Seq<char>>,
) -> Found {
    Found {
        name,
        stored: active_count(rows),
        duplicates: newly_found(rows, kept_rows(rows, redactions)),
    }
}

fn flags_of(keep: &Vec<usize>, n: usize) -> (flags: Vec<bool>)
    requires
        forall|i: int| 0 <= i < keep@.len() ==> #[trigger] keep@[i] < n,
    ensures
        flags@.len() == n,
        forall|i: int| 0 <= i < n ==> #[trigger] flags@[i] == positions(keep@).contains(i),
{
    let mut flags: Vec<bool> = Vec::new();
    for i in 0..n
        invariant
            flags@.len() == i,
            forall|j: int| 0 <= j < i ==> !#[trigger] flags@[j],
    {
        flags.push(false);
    }
    assert(positions(keep@).take(0) =~= Seq::<int>::empty());
    for i in 0..keep.len()
        invariant
            forall|j: int| 0 <= j < keep@.len() ==> #[trigger] keep@[j] < n,
            flags@.len() == n,
            forall|j: int|
                0 <= j < n ==> #[trigger] flags@[j] == positions(keep@).take(i as int).contains(j),
    {
        let ghost before = positions(keep@).take(i as int);
        let ghost after = positions(keep@).take(i + 1);
        let at = keep[i];
        let ghost earlier = flags@;
        flags.set(at, true);
        assert(after =~= before.push(at as int));
        assert forall|j: int| 0 <= j < n implies #[trigger] flags@[j] == after.contains(j) by {
            if j == at {
                assert(after[i as int] == j);
            } else {
                assert(earlier[j] == before.contains(j));
                if before.contains(j) {
                    let k = choose|k: int| 0 <= k < before.len() && before[k] == j;
                    assert(after[k] == j);
                }
                if after.contains(j) {
                    let k = choose|k: int| 0 <= k < after.len() && after[k] == j;
                    assert(before[k] == j);
                }
            }
        }
    }
    assert(positions(keep@).take(keep@.len() as int) =~= positions(keep@));
    flags
}

/// Find the re-inserted rows in one session.
///
/// Rows a previous repair already set aside stay set aside; only newly
/// identified re-inserts are reported, so re-running is a no-op.
pub fn find_duplicates(
    session: &Session,
    rows: &Vec<StoredRow>,
    redactions: &Vec<String>,
) -> (r: SessionRepair)
    ensures
        r@ == found_in(session.name@, rows@, texts(redactions@)),
        r.wf(),
{
    let keep = keep_indices(rows, redactions);
    let ghost kept = kept_rows(rows@, texts(redactions@));
    proof {
        survivors_keep_their_order(row_keys(rows@, texts(redactions@)));
        assert forall|i: int| 0 <= i < keep@.len() implies #[trigger] keep@[i] < rows@.len() by {
            assert(positions(keep@)[i] == kept[i]);
        }
    }
    let flags = flags_of(&keep, rows.len());
    let mut stored: usize = 0;
    let mut duplicates: Vec<String> = Vec::new();
    for i in 0..rows.len()
        invariant
            flags@.len() == rows@.len(),
            forall|j: int| 0 <= j < rows@.len() ==> #[trigger] flags@[j] == kept.contains(j),
            stored == active_count(rows@.take(i as int)),
            stored <= i,
            texts(duplicates@) == newly_found(rows@.take(i as int), kept),
            duplicates@.len() <= stored,
    {
        assert(rows@.take(i + 1).drop_last() =~= rows@.take(i as int));
        if !same(rows[i].message_type.as_str(), DUPLICATE) {
            stored += 1;
            if !flags[i] {
                let ghost before = duplicates@;
                duplicates.push(rows[i].id.clone());
                assert(texts(duplicates@) =~= texts(before).push(rows@[i as int].id@));
            }
        }
    }
    assert(rows@.take(rows@.len() as int) =~= rows@);
    SessionRepair { name: session.name.clone(), stored, duplicates }
}

// ---------------------------------------------------------------------
// All sessions
// ---------------------------------------------------------------------

/// The findings that name a duplicate.
pub open spec fn damaged(found: Seq<Found>) -> Seq<Found>
    decreases found.len(),
{
    if found.len() == 0 {
        Seq::empty()
    } else if found.last().duplicates.len() > 0 {
        damaged(found.drop_last()).push(found.last())
    } else {
        damaged(found.drop_last())
    }
}

/// The findings by falling number of duplicates; equal ones keep their order.
pub open spec fn worst_first(found: Seq<Found>) -> Seq<Found> {
    arranged(
        found,
        stable_order(
            found.len(),
            |a: int, b: int| found[a].duplicates.len() > found[b].duplicates.len(),
        ),
    )
}

/// What is found in each of the sessions.
pub open spec fn findings(
    sessions: Seq<Session>,
    rows: Seq<Vec<StoredRow>>,
    redactions: Seq<Seq<char>>,
) -> Seq<Found> {
    Seq::new(sessions.len(), |i: int| found_in(sessions[i].name@, rows[i]@, redactions))
}

/// The repairs that are due.
pub open spec fn due(
    sessions: Seq<Session>,
    rows: Seq<Vec<StoredRow>>,
    redactions: Seq<Seq<char>>,
) -> Seq<Found> {
    worst_first(damaged(findings(sessions, rows, redactions)))
}

/// The views of a list of repairs.
pub open spec fn found(repairs: Seq<SessionRepair>) -> Seq<Found> {
    repairs.map_values(|r: SessionRepair| r@)
}

/// All the duplicates of some findings.
pub open spec fn total_duplicates(found: Seq<Found>) -> int
    decreases found.len(),
{
    if found.len() == 0 {
        0
    } else {
        total_duplicates(found.drop_last()) + found.last().duplicates.len()
    }
}

/// All the rows of the sessions.
pub open spec fn total_rows(rows: Seq<Vec<StoredRow>>) -> int
    decreases rows.len(),
{
    if rows.len() == 0 {
        0
    } else {
        total_rows(rows.drop_last()) + rows.last()@.len()
    }
}

/// The line of the report for one session.
pub open spec fn repair_row(f: Found) -> Seq<Run> {
    seq![
        plain("  "@),
        styled(left_aligned(truncated(f.name, 32), 32), Style::BrightCyan),
        plain("  "@),
        plain(right_aligned(decimal(f.stored as nat), 7)),
        plain("  "@),
        plain(right_aligned(decimal((f.stored - f.duplicates.len()) as nat), 7)),
        plain("  "@),
        styled(right_aligned(decimal(f.duplicates.len()), 7), Style::BrightRed),
    ]
}

/// The report on the repairs that are due, before any of them is made.
pub open spec fn repair_report(found: Seq<Found>, apply: bool) -> Seq<Seq<Run>> {
    if found.len() == 0 {
        seq![
            empty_line(),
            seq![
                plain("  "@),
                styled("✓"@, Style::Green),
                plain(" No duplicated messages found."@),
            ],
            empty_line(),
        ]
    } else {
        seq![
            empty_line(),
            seq![
                plain("  "@),
                styled(
                    if apply {
                        "Repairing"@
                    } else {
                        "Found"@
                    },
                    Style::Bold,
                ),
                plain(" "@),
                styled(decimal(total_duplicates(found) as nat), Style::BrightYellow),
                plain(" duplicated message(s) across "@),
                styled(decimal(found.len()), Style::BrightYellow),
                plain(" session(s)"@),
            ],
            empty_line(),
            seq![
                plain("  "@),
                styled(left_aligned("SESSION"@, 32), Style::Bold),
                plain("  "@),
                styled(right_aligned("STORED"@, 7), Style::Bold),
                plain("  "@),
                styled(right_aligned("REAL"@, 7), Style::Bold),
                plain("  "@),
                styled(right_aligned("EXTRA"@, 7), Style::Bold),
            ],
        ] + found.map_values(|f: Found| repair_row(f)) + if apply {
            seq![empty_line()]
        } else {
            seq![
                empty_line(),
                seq![
                    plain("  "@),
                    styled("Nothing changed."@, Style::Dimmed),
                    plain(" "@),
                    styled("Re-run with --apply to clean these up."@, Style::BrightCyan),
                ],
                seq![
                    plain("  "@),
                    styled(
                        "Duplicates are marked, not deleted — `termai sessions repair --undo` reverses it."@,
                        Style::Dimmed,
                    ),
                ],
                empty_line(),
            ]
        }
    }
}

/// What is reported once the repairs have been made.
pub open spec fn repair_done(found: Seq<Found>, apply: bool) -> Seq<Seq<Run>> {
    if found.len() == 0 || !apply {
        Seq::empty()
    } else {
        seq![
            seq![
                plain("  "@),
                styled("✓"@, Style::Green),
                plain(" "@),
                styled(decimal(total_duplicates(found) as nat), Style::BrightYellow),
                plain(" message(s) removed from their conversations."@),
            ],
            seq![
                plain("  "@),
                styled(
                    "Nothing was deleted — `termai sessions repair --undo` puts them back."@,
                    Style::Dimmed,
                ),
            ],
            empty_line(),
        ]
    }
}

/// The writes that make the repairs.
pub open spec fn repair_marks(found: Seq<Found>, apply: bool) -> Seq<Change> {
    if apply {
        found.map_values(|f: Found| Change::MarkDuplicates(f.duplicates))
    } else {
        Seq::empty()
    }
}

/// What a repair comes to: the report is shown, the marks are written one by
/// one, and if all of them succeed `done` is shown.
#[derive(Debug)]
pub struct RepairPlan {
    pub repairs: Vec<SessionRepair>,
    pub report: Page,
    pub marks: Vec<Write>,
    pub done: Page,
}

proof fn lemma_newly_found_len(rows: Seq<StoredRow>, keep: Seq<int>)
    ensures
        newly_found(rows, keep).len() <= active_count(rows) <= rows.len(),
    decreases rows.len(),
{
    if rows.len() > 0 {
        lemma_newly_found_len(rows.drop_last(), keep);
    }
}

proof fn lemma_total_of_damaged(found: Seq<Found>)
    ensures
        total_duplicates(damaged(found)) == total_duplicates(found),
    decreases found.len(),
{
    if found.len() > 0 {
        lemma_total_of_damaged(found.drop_last());
        if found.last().duplicates.len() > 0 {
            assert(damaged(found).drop_last() =~= damaged(found.drop_last()));
        }
    }
}

fn repair_line(repair: &SessionRepair) -> (line: Line)
    requires
        repair.wf(),
    ensures
        line@ == repair_row(repair@),
{
    let name = align_left(truncate(repair.name.as_str(), 32).as_str(), 32);
    let stored = align_right(decimal_text(repair.stored as u64).as_str(), 7);
    let kept = align_right(decimal_text(repair.kept() as u64).as_str(), 7);
    let extra = align_right(decimal_text(repair.duplicates.len() as u64).as_str(), 7);
    assert(texts(repair.duplicates@).len() == repair.duplicates@.len());
    Line::new().text("  ").with(name.as_str(), Style::BrightCyan).text("  ").text(
        stored.as_str(),
    ).text("  ").text(kept.as_str()).text("  ").with(extra.as_str(), Style::BrightRed)
}

fn report_page(repairs: &Vec<SessionRepair>, total: usize, apply: bool) -> (page: Page)
    requires
        total == total_duplicates(found(repairs@)),
        forall|i: int| 0 <= i < repairs@.len() ==> (#[trigger] repairs@[i]).wf(),
    ensures
        page@ == repair_report(found(repairs@), apply),
{
    let ghost all = found(repairs@);
    let mut page = Page::new();
    page.add_blank();
    if repairs.len() == 0 {
        page.add_line(
            Line::new().text("  ").with("✓", Style::Green).text(" No duplicated messages found."),
        );
        page.add_blank();
        assert(page@ =~~= repair_report(all, apply));
        return page;
    }
    page.add_line(
        Line::new().text("  ").with(
            if apply {
                "Repairing"
            } else {
                "Found"
            },
            Style::Bold,
        ).text(" ").with(decimal_text(total as u64).as_str(), Style::BrightYellow).text(
            " duplicated message(s) across ",
        ).with(decimal_text(repairs.len() as u64).as_str(), Style::BrightYellow).text(
            " session(s)",
        ),
    );
    page.add_blank();
    page.add_line(
        Line::new().text("  ").with(align_left("SESSION", 32).as_str(), Style::Bold).text(
            "  ",
        ).with(align_right("STORED", 7).as_str(), Style::Bold).text("  ").with(
            align_right("REAL", 7).as_str(),
            Style::Bold,
        ).text("  ").with(align_right("EXTRA", 7).as_str(), Style::Bold),
    );
    let ghost head = page@;
    let ghost rows = all.map_values(|f: Found| repair_row(f));
    assert(rows.take(0) =~= Seq::<Seq<Run>>::empty());
    assert(page@ =~= head + rows.take(0));
    for i in 0..repairs.len()
        invariant
            all == found(repairs@),
            forall|j: int| 0 <= j < repairs@.len() ==> (#[trigger] repairs@[j]).wf(),
            rows == all.map_values(|f: Found| repair_row(f)),
            page@ == head + rows.take(i as int),
    {
        page.add_line(repair_line(&repairs[i]));
        assert(rows.take(i + 1) =~= rows.take(i as int).push(rows[i as int]));
        assert(page@ =~= head + rows.take(i + 1));
    }
    assert(rows.take(repairs@.len() as int) =~= rows);
    let ghost body = page@;
    page.add_blank();
    if !apply {
        page.add_line(
            Line::new().text("  ").with("Nothing changed.", Style::Dimmed).text(" ").with(
                "Re-run with --apply to clean these up.",
                Style::BrightCyan,
            ),
        );
        page.add_line(
            Line::new().text("  ").with(
                "Duplicates are marked, not deleted — `termai sessions repair --undo` reverses it.",
                Style::Dimmed,
            ),
        );
        page.add_blank();
    }
    assert(page@ =~~= repair_report(all, apply));
    page
}

fn done_page(total: usize, Ghost(all): Ghost<Seq<Found>>) -> (page: Page)
    requires
        all.len() > 0,
        total == total_duplicates(all),
    ensures
        page@ == repair_done(all, true),
{
    let mut page = Page::new();
    page.add_line(
        Line::new().text("  ").with("✓", Style::Green).text(" ").with(
            decimal_text(total as u64).as_str(),
            Style::BrightYellow,
        ).text(" message(s) removed from their conversations."),
    );
    page.add_line(
        Line::new().text("  ").with(
            "Nothing was deleted — `termai sessions repair --undo` puts them back.",
            Style::Dimmed,
        ),
    );
    page.add_blank();
    assert(page@ =~~= repair_done(all, true));
    page
}

fn sort_repairs(repairs: &Vec<SessionRepair>) -> (r: Vec<SessionRepair>)
    requires
        forall|i: int| 0 <= i < repairs@.len() ==> (#[trigger] repairs@[i]).wf(),
    ensures
        found(r@) == worst_first(found(repairs@)),
        forall|i: int| 0 <= i < r@.len() ==> (#[trigger] r@[i]).wf(),
{
    let ghost all = found(repairs@);
    let ghost before = |a: int, b: int| all[a].duplicates.len() > all[b].duplicates.len();
    let more = |a: usize, b: usize| -> (r: bool)
        requires
            a < repairs.len(),
            b < repairs.len(),
        ensures
            r == (repairs@[b as int].duplicates@.len() < repairs@[a as int].duplicates@.len()),
        {
            repairs[b].duplicates.len() < repairs[a].duplicates.len()
        };
    assert(forall|i: int|
        0 <= i < repairs@.len() ==> (#[trigger] all[i]).duplicates.len()
            == repairs@[i].duplicates@.len());
    let order = order_positions(repairs.len(), more, Ghost(before));
    let ghost ints = order@.map_values(|i: usize| i as int);
    let mut sorted: Vec<SessionRepair> = Vec::new();
    for i in 0..order.len()
        invariant
            all == found(repairs@),
            ints == order@.map_values(|i: usize| i as int),
            forall|k: int| 0 <= k < order@.len() ==> #[trigger] order@[k] < repairs@.len(),
            forall|k: int| 0 <= k < repairs@.len() ==> (#[trigger] repairs@[k]).wf(),
            found(sorted@) == arranged(all, ints).take(i as int),
            forall|k: int| 0 <= k < sorted@.len() ==> (#[trigger] sorted@[k]).wf(),
    {
        let ghost earlier = sorted@;
        sorted.push(repairs[order[i]].clone());
        assert(found(sorted@) =~= found(earlier).push(all[ints[i as int]]));
        assert(arranged(all, ints).take(i + 1) =~= arranged(all, ints).take(i as int).push(
            all[ints[i as int]],
        ));
    }
    assert(arranged(all, ints).take(order@.len() as int) =~= arranged(all, ints));
    sorted
}

proof fn lemma_total_of_prefix(found: Seq<Found>, n: int)
    requires
        0 <= n <= found.len(),
    ensures
        0 <= total_duplicates(found.take(n)) <= total_duplicates(found),
    decreases found.len(),
{
    if n < found.len() {
        lemma_total_of_prefix(found.drop_last(), n);
        assert(found.drop_last().take(n) =~= found.take(n));
    } else {
        assert(found.take(n) =~= found);
        if found.len() > 0 {
            lemma_total_of_prefix(found.drop_last(), n - 1);
            assert(found.drop_last().take(n - 1) =~= found.drop_last());
        }
    }
}

proof fn lemma_total_of_inserted(
    found: Seq<Found>,
    order: Seq<int>,
    x: int,
    before: spec_fn(int, int) -> bool,
)
    ensures
        total_duplicates(arranged(found, inserted(order, x, before))) == total_duplicates(
            arranged(found, order),
        ) + found[x].duplicates.len(),
    decreases order.len(),
{
    let more = inserted(order, x, before);
    if order.len() > 0 && before(x, order.last()) {
        let rest = order.drop_last();
        lemma_total_of_inserted(found, rest, x, before);
        assert(arranged(found, more).drop_last() =~= arranged(
            found,
            inserted(rest, x, before),
        ));
        assert(arranged(found, order).drop_last() =~= arranged(found, rest));
    } else {
        assert(arranged(found, more).drop_last() =~= arranged(found, order));
    }
}

proof fn lemma_total_of_order(found: Seq<Found>, n: nat, before: spec_fn(int, int) -> bool)
    requires
        n <= found.len(),
    ensures
        total_duplicates(arranged(found, stable_order(n, before))) == total_duplicates(
            found.take(n as int),
        ),
    decreases n,
{
    if n > 0 {
        let fewer = (n - 1) as nat;
        lemma_total_of_order(found, fewer, before);
        lemma_total_of_inserted(found, stable_order(fewer, before), fewer as int, before);
        assert(found.take(n as int).drop_last() =~= found.take(fewer as int));
    } else {
        assert(arranged(found, stable_order(0, before)) =~= found.take(0));
    }
}

proof fn lemma_total_of_arranged(found: Seq<Found>)
    ensures
        total_duplicates(worst_first(found)) == total_duplicates(found),
{
    lemma_total_of_order(
        found,
        found.len(),
        |a: int, b: int| found[a].duplicates.len() > found[b].duplicates.len(),
    );
    assert(found.take(found.len() as int) =~= found);
}

proof fn lemma_total_of_findings(
    sessions: Seq<Session>,
    rows: Seq<Vec<StoredRow>>,
    redactions: Seq<Seq<char>>,
)
    requires
        sessions.len() == rows.len(),
    ensures
        total_duplicates(findings(sessions, rows, redactions)) <= total_rows(rows),
    decreases sessions.len(),
{
    if sessions.len() > 0 {
        let fewer = sessions.drop_last();
        let rest = rows.drop_last();
        lemma_total_of_findings(fewer, rest, redactions);
        let all = findings(sessions, rows, redactions);
        assert(all.drop_last() =~= findings(fewer, rest, redactions));
        lemma_newly_found_len(rows.last()@, kept_rows(rows.last()@, redactions));
    }
}

/// `termai sessions repair`, once the sessions and their rows have been read:
/// `rows[i]` are the rows of `sessions[i]`.
pub fn repair(
    sessions: &Vec<Session>,
    rows: &Vec<Vec<StoredRow>>,
    redactions: &Vec<String>,
    apply: bool,
) -> (r: RepairPlan)
    requires
        sessions@.len() == rows@.len(),
        total_rows(rows@) <= usize::MAX,
    ensures
        found(r.repairs@) == due(sessions@, rows@, texts(redactions@)),
        r.report@ == repair_report(due(sessions@, rows@, texts(redactions@)), apply),
        changes(r.marks@) == repair_marks(due(sessions@, rows@, texts(redactions@)), apply),
        r.done@ == repair_done(due(sessions@, rows@, texts(redactions@)), apply),
{
    let ghost terms = texts(redactions@);
    let ghost all = findings(sessions@, rows@, terms);
    let mut repairs: Vec<SessionRepair> = Vec::new();
    assert(found(repairs@) =~= damaged(all.take(0)));
    for i in 0..sessions.len()
        invariant
            sessions@.len() == rows@.len(),
            terms == texts(redactions@),
            all == findings(sessions@, rows@, terms),
            found(repairs@) == damaged(all.take(i as int)),
            forall|j: int| 0 <= j < repairs@.len() ==> (#[trigger] repairs@[j]).wf(),
    {
        assert(all.take(i + 1).drop_last() =~= all.take(i as int));
        let one = find_duplicates(&sessions[i], &rows[i], redactions);
        assert(texts(one.duplicates@).len() == one.duplicates@.len());
        if one.duplicates.len() > 0 {
            let ghost before = found(repairs@);
            repairs.push(one);
            assert(found(repairs@) =~= before.push(one@));
        }
    }
    assert(all.take(all.len() as int) =~= all);
    let sorted = sort_repairs(&repairs);
    let ghost want = found(sorted@);
    proof {
        lemma_total_of_findings(sessions@, rows@, terms);
        lemma_total_of_damaged(all);
        lemma_total_of_arranged(damaged(all));
    }
    let mut total: usize = 0;
    for i in 0..sorted.len()
        invariant
            want == found(sorted@),
            total_duplicates(want) <= usize::MAX,
            total == total_duplicates(want.take(i as int)),
    {
        proof {
            lemma_total_of_prefix(want, i + 1);
            assert(want.take(i + 1).drop_last() =~= want.take(i as int));
            assert(want[i as int].duplicates.len() == sorted@[i as int].duplicates@.len());
        }
        total += sorted[i].duplicates.len();
    }
    assert(want.take(want.len() as int) =~= want);
    let report = report_page(&sorted, total, apply);
    let mut marks: Vec<Write> = Vec::new();
    let ghost written = repair_marks(want, true);
    assert(changes(marks@) =~= written.take(0));
    let mut done = Page::new();
    if apply {
        for i in 0..sorted.len()
            invariant
                want == found(sorted@),
                written == repair_marks(want, true),
                changes(marks@) == written.take(i as int),
        {
            let ghost before = marks@;
            marks.push(Write::MarkDuplicates { ids: copy_texts(&sorted[i].duplicates) });
            assert(changes(marks@) =~= changes(before).push(written[i as int]));
            assert(written.take(i + 1) =~= written.take(i as int).push(written[i as int]));
        }
        assert(written.take(want.len() as int) =~= written);
        if sorted.len() > 0 {
            done = done_page(total, Ghost(want));
        }
    } else {
        assert(written.take(0) =~= repair_marks(want, false));
    }
    RepairPlan { repairs: sorted, report, marks, done }
}

// ---------------------------------------------------------------------
// Undoing, and failures
// ---------------------------------------------------------------------

/// The write that puts every marked message back.
pub fn undo() -> (r: Write)
    ensures
        r@ == Change::RestoreDuplicates,
{
    Write::RestoreDuplicates
}

/// What is reported after an undo that put back `restored` messages.
pub fn undo_report(restored: usize) -> (page: Page)
    ensures
        page@ =~~= seq![
            empty_line(),
            seq![
                plain("  "@),
                styled("↩"@, Style::BrightGreen),
                plain(" "@),
                styled(decimal(restored as nat), Style::BrightYellow),
                plain(" message(s) put back into their conversations."@),
            ],
            empty_line(),
        ],
{
    let mut page = Page::new();
    page.add_blank();
    page.add_line(
        Line::new().text("  ").with("↩", Style::BrightGreen).text(" ").with(
            decimal_text(restored as u64).as_str(),
            Style::BrightYellow,
        ).text(" message(s) put back into their conversations."),
    );
    page.add_blank();
    page
}

/// What a repair was doing when the store failed.
#[derive(Debug)]
pub enum RepairFailure {
    Restoring,
    Listing,
    Reading(String),
    Marking(String),
}

impl RepairFailure {
    /// The failure in words, with the store's own words at the end.
    pub open spec fn words(self, cause: Seq<char>) -> Seq<char> {
        match self {
            RepairFailure::Restoring => "could not restore messages: "@ + cause,
            RepairFailure::Listing => "could not list sessions: "@ + cause,
            RepairFailure::Reading(name) => "could not read session '"@ + name@ + "': "@ + cause,
            RepairFailure::Marking(name) => "could not repair '"@ + name@ + "': "@ + cause,
        }
    }

    pub fn message(&self, cause: &str) -> (r: String)
        ensures
            r@ == self.words(cause@),
    {
        match self {
            RepairFailure::Restoring => concat("could not restore messages: ", cause),
            RepairFailure::Listing => concat("could not list sessions: ", cause),
            RepairFailure::Reading(name) => {
                let start = concat("could not read session '", name.as_str());
                concat(concat(start.as_str(), "': ").as_str(), cause)
            },
            RepairFailure::Marking(name) => {
                let start = concat("could not repair '", name.as_str());
                concat(concat(start.as_str(), "': ").as_str(), cause)
            },
        }
    }
}

// ---------------------------------------------------------------------
// Laws
// ---------------------------------------------------------------------

/// `after` are the rows `before` once the rows with these ids were marked.
pub open spec fn rows_marked(
    before: Seq<StoredRow>,
    ids: Seq<Seq<char>>,
    after: Seq<StoredRow>,
) -> bool {
    &&& after.len() == before.len()
    &&& forall|i: int|
        0 <= i < before.len() ==> {
            &&& (#[trigger] after[i]).id@ == before[i].id@
            &&& after[i].role@ == before[i].role@
            &&& after[i].content@ == before[i].content@
            &&& after[i].message_type@ == if ids.contains(before[i].id@) {
                DUPLICATE@
            } else {
                before[i].message_type@
            }
        }
}

/// The id belongs to a row that still counts but is not kept.
pub open spec fn dropped_at(rows: Seq<StoredRow>, keep: Seq<int>, i: int) -> bool {
    0 <= i < rows.len() && active(rows[i]) && !keep.contains(i)
}

proof fn lemma_newly_found(rows: Seq<StoredRow>, keep: Seq<int>)
    ensures
        forall|i: int| #[trigger]
            dropped_at(rows, keep, i) ==> newly_found(rows, keep).contains(rows[i].id@),
        forall|id: Seq<char>| #[trigger]
            newly_found(rows, keep).contains(id) ==> exists|i: int| #[trigger]
                dropped_at(rows, keep, i) && rows[i].id@ == id,
    decreases rows.len(),
{
    let list = newly_found(rows, keep);
    if rows.len() > 0 {
        let before = rows.drop_last();
        let rest = newly_found(before, keep);
        lemma_newly_found(before, keep);
        let last = rows.len() - 1;
        assert forall|i: int| #[trigger] dropped_at(rows, keep, i) implies list.contains(
            rows[i].id@,
        ) by {
            if i < last {
                assert(dropped_at(before, keep, i));
                let k = choose|k: int| 0 <= k < rest.len() && rest[k] == before[i].id@;
                assert(list[k] == rows[i].id@);
            } else {
                assert(list[list.len() - 1] == rows[i].id@);
            }
        }
        assert forall|id: Seq<char>| #[trigger] list.contains(id) implies exists|i: int| #[trigger]
            dropped_at(rows, keep, i) && rows[i].id@ == id by {
            let k = choose|k: int| 0 <= k < list.len() && list[k] == id;
            if k < rest.len() {
                assert(rest[k] == id);
                assert(rest.contains(id));
                let i = choose|i: int| #[trigger] dropped_at(before, keep, i) && before[i].id@ == id;
                assert(dropped_at(rows, keep, i) && rows[i].id@ == id);
            } else {
                assert(dropped_at(rows, keep, last) && rows[last].id@ == id);
            }
        }
    }
}

proof fn lemma_nothing_new(rows: Seq<StoredRow>, keep: Seq<int>)
    requires
        forall|i: int| !#[trigger] dropped_at(rows, keep, i),
    ensures
        newly_found(rows, keep) == Seq::<Seq<char>>::empty(),
{
    lemma_newly_found(rows, keep);
    let list = newly_found(rows, keep);
    if list.len() > 0 {
        assert(list.contains(list[0]));
    }
    assert(list =~= Seq::<Seq<char>>::empty());
}

/// A repair that has been made leaves nothing for the next one: re-running is
/// a no-op.
pub proof fn repairing_again_finds_nothing(
    before: Seq<StoredRow>,
    after: Seq<StoredRow>,
    redactions: Seq<Seq<char>>,
)
    requires
        rows_marked(before, newly_found(before, kept_rows(before, redactions)), after),
    ensures
        newly_found(after, kept_rows(after, redactions)) == Seq::<Seq<char>>::empty(),
{
    let keep = kept_rows(before, redactions);
    assert(row_keys(after, redactions) =~= row_keys(before, redactions));
    lemma_newly_found(before, keep);
    assert forall|i: int| !#[trigger] dropped_at(after, keep, i) by {
        if dropped_at(after, keep, i) {
            assert(dropped_at(before, keep, i) || !active(before[i]));
        }
    }
    lemma_nothing_new(after, keep);
}

/// Nothing that was said is lost: for every row a kept one stands that has
/// its key, which is that of its role and of all that it reads as.
pub proof fn repair_loses_nothing(rows: Seq<StoredRow>, redactions: Seq<Seq<char>>, i: int)
    requires
        0 <= i < rows.len(),
    ensures
        exists|j: int|
            0 <= j < kept_rows(rows, redactions).len() && 0 <= #[trigger] kept_rows(
                rows,
                redactions,
            )[j] < rows.len() && row_key(rows[kept_rows(rows, redactions)[j]], redactions)
                == row_key(rows[i], redactions) && key_of(
                rows[kept_rows(rows, redactions)[j]].role@,
                normalised(rows[kept_rows(rows, redactions)[j]].content@, redactions),
            ) == key_of(rows[i].role@, normalised(rows[i].content@, redactions)),
{
    let keys = row_keys(rows, redactions);
    let keep = kept_rows(rows, redactions);
    survivors_lose_nothing(keys, i);
    survivors_keep_their_order(keys);
    let live = keys_at(keys, keep);
    let j = choose|j: int| 0 <= j < live.len() && live[j] == keys[i];
    assert(live[j] == keys[keep[j]]);
    assert(0 <= keep[j] < rows.len());
    assert(row_key(rows[keep[j]], redactions) == row_key(rows[i], redactions));
}

/// A row that a repair drops stays as a copy: a kept row behind it has its
/// key, which is that of its role and of all that it reads as. The last two
/// rows are always kept.
pub proof fn a_dropped_row_is_kept_as_a_later_copy(
    rows: Seq<StoredRow>,
    redactions: Seq<Seq<char>>,
    i: int,
)
    requires
        0 <= i < rows.len(),
        !kept_rows(rows, redactions).contains(i),
    ensures
        i < rows.len() - 2,
        exists|j: int|
            0 <= j < kept_rows(rows, redactions).len() && i < #[trigger] kept_rows(
                rows,
                redactions,
            )[j] < rows.len() && row_key(rows[kept_rows(rows, redactions)[j]], redactions)
                == row_key(rows[i], redactions) && key_of(
                rows[kept_rows(rows, redactions)[j]].role@,
                normalised(rows[kept_rows(rows, redactions)[j]].content@, redactions),
            ) == key_of(rows[i].role@, normalised(rows[i].content@, redactions)),
{
    let keys = row_keys(rows, redactions);
    let keep = kept_rows(rows, redactions);
    if i >= rows.len() - 2 {
        the_last_two_rows_survive(keys, i);
    }
    a_dropped_row_has_a_surviving_copy_behind_it(keys, i);
    survivors_keep_their_order(keys);
    let j = choose|j: int|
        0 <= j < keep.len() && i < #[trigger] keep[j] && keys[keep[j]] == keys[i];
    assert(keep[j] < rows.len());
    assert(row_key(rows[keep[j]], redactions) == row_key(rows[i], redactions));
}

/// The messages of a session that a repair looks at: all but the unanswered
/// prompts.
pub open spec fn inspected(messages: Seq<MessageRow>, session_id: Seq<char>) -> Seq<Turn>
    decreases messages.len(),
{
    if messages.len() == 0 {
        Seq::empty()
    } else {
        let rest = inspected(messages.drop_last(), session_id);
        if messages.last().session_id == session_id && messages.last().turn.kind != PENDING@ {
            rest.push(messages.last().turn)
        } else {
            rest
        }
    }
}

/// The rows say what the turns say.
pub open spec fn rows_of(rows: Seq<StoredRow>, turns: Seq<Turn>) -> bool {
    &&& rows.len() == turns.len()
    &&& forall|i: int|
        0 <= i < rows.len() ==> {
            &&& (#[trigger] rows[i]).id@ == turns[i].id
            &&& rows[i].role@ == turns[i].role
            &&& rows[i].content@ == turns[i].content
            &&& rows[i].message_type@ == turns[i].kind
        }
}

/// The turns that still count and stand at kept positions.
pub open spec fn kept_turns(turns: Seq<Turn>, keep: Seq<int>) -> Seq<Turn>
    decreases turns.len(),
{
    if turns.len() == 0 {
        Seq::empty()
    } else {
        let rest = kept_turns(turns.drop_last(), keep);
        if turns.last().kind != DUPLICATE@ && keep.contains(turns.len() - 1) {
            rest.push(turns.last())
        } else {
            rest
        }
    }
}

/// Each id of the list belongs to a turn that still counts but is not kept,
/// and to no other.
spec fn marks_exactly(turns: Seq<Turn>, keep: Seq<int>, ids: Seq<Seq<char>>) -> bool {
    forall|i: int|
        0 <= i < turns.len() ==> (ids.contains((#[trigger] turns[i]).id) <==> turns[i].kind
            != DUPLICATE@ && !keep.contains(i))
}

proof fn lemma_inspected_ids(messages: Seq<MessageRow>, session_id: Seq<char>)
    requires
        forall|i: int, j: int|
            #![trigger messages[i], messages[j]]
            0 <= i < j < messages.len() ==> messages[i].turn.id != messages[j].turn.id,
    ensures
        forall|i: int|
            0 <= i < inspected(messages, session_id).len() ==> exists|k: int|
                0 <= k < messages.len() && (#[trigger] messages[k]).turn == #[trigger] inspected(
                    messages,
                    session_id,
                )[i],
        forall|i: int, j: int|
            0 <= i < j < inspected(messages, session_id).len() ==> (#[trigger] inspected(
                messages,
                session_id,
            )[i]).id != (#[trigger] inspected(messages, session_id)[j]).id,
    decreases messages.len(),
{
    if messages.len() > 0 {
        let before = messages.drop_last();
        let rest = inspected(before, session_id);
        let all = inspected(messages, session_id);
        assert(forall|i: int| 0 <= i < before.len() ==> before[i] == messages[i]);
        lemma_inspected_ids(before, session_id);
        let last = messages.len() - 1;
        assert forall|i: int| 0 <= i < all.len() implies exists|k: int|
            0 <= k < messages.len() && (#[trigger] messages[k]).turn == #[trigger] all[i] by {
            if i < rest.len() {
                assert(all[i] == rest[i]);
                let k = choose|k: int| 0 <= k < before.len() && (#[trigger] before[k]).turn == rest[i];
                assert(messages[k].turn == all[i]);
            } else {
                assert(messages[last].turn == all[i]);
            }
        }
        assert forall|i: int, j: int| 0 <= i < j < all.len() implies (#[trigger] all[i]).id != (
        #[trigger] all[j]).id by {
            if j < rest.len() {
                assert(rest[i].id != rest[j].id);
            } else {
                assert(all[i] == rest[i]);
                let k = choose|k: int| 0 <= k < before.len() && (#[trigger] before[k]).turn == rest[i];
                assert(messages[k].turn.id != messages[last].turn.id);
            }
        }
    }
}

proof fn lemma_marked_conversation(
    messages: Seq<MessageRow>,
    session_id: Seq<char>,
    keep: Seq<int>,
    ids: Seq<Seq<char>>,
)
    requires
        marks_exactly(inspected(messages, session_id), keep, ids),
        forall|i: int|
            0 <= i < messages.len() && (#[trigger] messages[i]).turn.kind == PENDING@
                ==> !ids.contains(messages[i].turn.id),
    ensures
        conversation(marked(messages, ids), session_id) == kept_turns(
            inspected(messages, session_id),
            keep,
        ),
    decreases messages.len(),
{
    if messages.len() > 0 {
        let before = messages.drop_last();
        let rest = inspected(before, session_id);
        let all = inspected(messages, session_id);
        assert forall|i: int| 0 <= i < rest.len() implies (ids.contains((#[trigger] rest[i]).id)
            <==> rest[i].kind != DUPLICATE@ && !keep.contains(i)) by {
            assert(all[i] == rest[i]);
        }
        lemma_marked_conversation(before, session_id, keep, ids);
        assert(marked(messages, ids).drop_last() =~= marked(before, ids));
        let last = messages.last();
        if last.session_id == session_id && last.turn.kind != PENDING@ {
            assert(all[all.len() - 1] == last.turn);
            assert(all.drop_last() =~= rest);
        }
    }
}

/// Once a session is repaired its conversation is made of exactly the rows
/// that were kept, in their order.
pub proof fn a_repaired_conversation_is_what_was_kept(
    t: Tables,
    session_id: Seq<char>,
    rows: Seq<StoredRow>,
    redactions: Seq<Seq<char>>,
)
    requires
        consistent(t),
        rows_of(rows, inspected(t.messages, session_id)),
    ensures
        conversation(
            marked(t.messages, newly_found(rows, kept_rows(rows, redactions))),
            session_id,
        ) == kept_turns(inspected(t.messages, session_id), kept_rows(rows, redactions)),
{
    let keep = kept_rows(rows, redactions);
    let ids = newly_found(rows, keep);
    let turns = inspected(t.messages, session_id);
    lemma_newly_found(rows, keep);
    lemma_inspected_ids(t.messages, session_id);
    assert forall|i: int| 0 <= i < turns.len() implies (ids.contains((#[trigger] turns[i]).id)
        <==> turns[i].kind != DUPLICATE@ && !keep.contains(i)) by {
        assert(rows[i].id@ == turns[i].id);
        if ids.contains(turns[i].id) {
            let k = choose|k: int| #[trigger]
                dropped_at(rows, keep, k) && rows[k].id@ == turns[i].id;
            assert(turns[k].id == turns[i].id);
            assert(k == i);
        }
        if turns[i].kind != DUPLICATE@ && !keep.contains(i) {
            assert(dropped_at(rows, keep, i));
        }
    }
    lemma_duplicates_spare_prompts(t, session_id, rows, keep);
    lemma_marked_conversation(t.messages, session_id, keep, ids);
}

proof fn lemma_inspected_kind(messages: Seq<MessageRow>, session_id: Seq<char>, i: int)
    requires
        0 <= i < inspected(messages, session_id).len(),
    ensures
        inspected(messages, session_id)[i].kind != PENDING@,
    decreases messages.len(),
{
    let rest = inspected(messages.drop_last(), session_id);
    if i < rest.len() {
        lemma_inspected_kind(messages.drop_last(), session_id, i);
    }
}

/// Marking deletes nothing: every message keeps its place, its id, its role
/// and its text.
pub proof fn marking_deletes_nothing(messages: Seq<MessageRow>, ids: Seq<Seq<char>>, i: int)
    requires
        0 <= i < messages.len(),
    ensures
        marked(messages, ids).len() == messages.len(),
        marked(messages, ids)[i] == with_kind(messages[i], marked(messages, ids)[i].turn.kind),
{
}

/// What the turns say: all of them but their kinds.
pub open spec fn said(turns: Seq<Turn>) -> Seq<Turn> {
    turns.map_values(|turn: Turn| Turn { kind: STANDARD@, ..turn })
}

/// Nothing was set aside by an earlier repair.
pub open spec fn none_set_aside(messages: Seq<MessageRow>) -> bool {
    forall|i: int| 0 <= i < messages.len() ==> (#[trigger] messages[i]).turn.kind != DUPLICATE@
}

/// Every message is an ordinary one or an unanswered prompt.
pub open spec fn all_ordinary(messages: Seq<MessageRow>) -> bool {
    forall|i: int|
        0 <= i < messages.len() ==> (#[trigger] messages[i]).turn.kind == STANDARD@
            || messages[i].turn.kind == PENDING@
}

/// `after` is `before` with some messages, but no unanswered prompts, set
/// aside.
spec fn set_aside(before: Seq<MessageRow>, after: Seq<MessageRow>) -> bool {
    &&& after.len() == before.len()
    &&& forall|i: int|
        0 <= i < before.len() ==> {
            ||| #[trigger] after[i] == before[i]
            ||| before[i].turn.kind != PENDING@ && after[i] == with_kind(before[i], DUPLICATE@)
        }
}

/// No unanswered prompt has one of the ids.
spec fn spares_prompts(messages: Seq<MessageRow>, ids: Seq<Seq<char>>) -> bool {
    forall|i: int|
        0 <= i < messages.len() && (#[trigger] messages[i]).turn.kind == PENDING@ ==> !ids.contains(
            messages[i].turn.id,
        )
}

proof fn lemma_duplicates_spare_prompts(
    t: Tables,
    session_id: Seq<char>,
    rows: Seq<StoredRow>,
    keep: Seq<int>,
)
    requires
        consistent(t),
        rows_of(rows, inspected(t.messages, session_id)),
    ensures
        spares_prompts(t.messages, newly_found(rows, keep)),
{
    let ids = newly_found(rows, keep);
    let turns = inspected(t.messages, session_id);
    lemma_newly_found(rows, keep);
    lemma_inspected_ids(t.messages, session_id);
    assert forall|m: int|
        0 <= m < t.messages.len() && (#[trigger] t.messages[m]).turn.kind
            == PENDING@ implies !ids.contains(t.messages[m].turn.id) by {
        if ids.contains(t.messages[m].turn.id) {
            let k = choose|k: int| #[trigger]
                dropped_at(rows, keep, k) && rows[k].id@ == t.messages[m].turn.id;
            lemma_inspected_kind(t.messages, session_id, k);
            let at = choose|at: int|
                0 <= at < t.messages.len() && (#[trigger] t.messages[at]).turn == turns[k];
            assert(t.messages[at].turn.id == t.messages[m].turn.id);
            assert(at == m);
        }
    }
}

proof fn lemma_damaged_members(found: Seq<Found>)
    ensures
        forall|k: int|
            0 <= k < damaged(found).len() ==> found.contains(#[trigger] damaged(found)[k]),
    decreases found.len(),
{
    if found.len() > 0 {
        let before = found.drop_last();
        let list = damaged(found);
        lemma_damaged_members(before);
        assert forall|k: int| 0 <= k < list.len() implies found.contains(#[trigger] list[k]) by {
            if k < damaged(before).len() {
                assert(list[k] == damaged(before)[k]);
                let i = choose|i: int| 0 <= i < before.len() && before[i] == list[k];
                assert(found[i] == list[k]);
            } else {
                assert(found[found.len() - 1] == list[k]);
            }
        }
    }
}

proof fn lemma_due_members(
    sessions: Seq<Session>,
    rows: Seq<Vec<StoredRow>>,
    redactions: Seq<Seq<char>>,
)
    ensures
        forall|k: int|
            0 <= k < due(sessions, rows, redactions).len() ==> findings(
                sessions,
                rows,
                redactions,
            ).contains(#[trigger] due(sessions, rows, redactions)[k]),
{
    let all = findings(sessions, rows, redactions);
    let list = damaged(all);
    lemma_damaged_members(all);
    let before = |a: int, b: int| list[a].duplicates.len() > list[b].duplicates.len();
    let order = stable_order(list.len(), before);
    lemma_stable_order_range(list.len(), before);
    assert forall|k: int| 0 <= k < due(sessions, rows, redactions).len() implies all.contains(
        #[trigger] due(sessions, rows, redactions)[k],
    ) by {
        assert(0 <= order[k] < list.len());
        assert(due(sessions, rows, redactions)[k] == list[order[k]]);
    }
}

proof fn lemma_marks_set_aside(t: Tables, found: Seq<Found>)
    requires
        forall|k: int|
            0 <= k < found.len() ==> spares_prompts(t.messages, (#[trigger] found[k]).duplicates),
    ensures
        after_all(t, repair_marks(found, true)) is Some,
        after_all(t, repair_marks(found, true))->0.sessions == t.sessions,
        set_aside(t.messages, after_all(t, repair_marks(found, true))->0.messages),
    decreases found.len(),
{
    let marks = repair_marks(found, true);
    if found.len() > 0 {
        let rest = found.drop_last();
        assert(forall|k: int| 0 <= k < rest.len() ==> rest[k] == found[k]);
        lemma_marks_set_aside(t, rest);
        assert(marks.drop_last() =~= repair_marks(rest, true));
        let u = after_all(t, repair_marks(rest, true))->0;
        let ids = found.last().duplicates;
        assert(spares_prompts(t.messages, found[found.len() - 1].duplicates));
        let end = marked(u.messages, ids);
        assert forall|i: int| 0 <= i < t.messages.len() implies {
            ||| #[trigger] end[i] == t.messages[i]
            ||| t.messages[i].turn.kind != PENDING@ && end[i] == with_kind(
                t.messages[i],
                DUPLICATE@,
            )
        } by {
            assert(u.messages[i] == t.messages[i] || t.messages[i].turn.kind != PENDING@
                && u.messages[i] == with_kind(t.messages[i], DUPLICATE@));
        }
    }
}

proof fn lemma_restored_conversation(
    before: Seq<MessageRow>,
    after: Seq<MessageRow>,
    session_id: Seq<char>,
)
    requires
        set_aside(before, after),
    ensures
        said(conversation(restored(after), session_id)) == said(
            conversation(restored(before), session_id),
        ),
        pending(restored(after), session_id) == pending(before, session_id),
    decreases before.len(),
{
    reveal_strlit("pending");
    reveal_strlit("duplicate");
    reveal_strlit("standard");
    if before.len() > 0 {
        let earlier = before.drop_last();
        let later = after.drop_last();
        assert(set_aside(earlier, later)) by {
            assert forall|i: int| 0 <= i < earlier.len() implies {
                ||| #[trigger] later[i] == earlier[i]
                ||| earlier[i].turn.kind != PENDING@ && later[i] == with_kind(
                    earlier[i],
                    DUPLICATE@,
                )
            } by {
                assert(later[i] == after[i] && earlier[i] == before[i]);
            }
        }
        lemma_restored_conversation(earlier, later, session_id);
        assert(restored(after).drop_last() =~= restored(later));
        assert(restored(before).drop_last() =~= restored(earlier));
        let n = before.len() - 1;
        assert(after[n] == before[n] || before[n].turn.kind != PENDING@ && after[n] == with_kind(
            before[n],
            DUPLICATE@,
        ));
        let a = restored(after).last();
        let b = restored(before).last();
        assert(PENDING@.len() == 7 && DUPLICATE@.len() == 9 && STANDARD@.len() == 8);
        assert(in_conversation(a, session_id) == in_conversation(b, session_id));
        let later_turns = conversation(restored(later), session_id);
        let earlier_turns = conversation(restored(earlier), session_id);
        if in_conversation(a, session_id) {
            assert(said(later_turns.push(a.turn)) =~= said(later_turns).push(
                Turn { kind: STANDARD@, ..a.turn },
            ));
            assert(said(earlier_turns.push(b.turn)) =~= said(earlier_turns).push(
                Turn { kind: STANDARD@, ..b.turn },
            ));
        }
    } else {
        assert(restored(after) =~= restored(before));
    }
}

/// Undoing a repair puts everything back: once the marks of `repair` have been
/// written, over however many sessions, and then the write of `undo`, every
/// conversation says what it said, in the same order. Unanswered prompts stay
/// where they were. What an earlier repair had set aside comes back too. Where
/// all messages are ordinary, the tables are as they were.
pub proof fn undoing_a_repair_restores_everything(
    t: Tables,
    sessions: Seq<Session>,
    rows: Seq<Vec<StoredRow>>,
    redactions: Seq<Seq<char>>,
    session_id: Seq<char>,
)
    requires
        consistent(t),
        sessions.len() == rows.len(),
        forall|i: int|
            0 <= i < sessions.len() ==> rows_of(
                (#[trigger] rows[i])@,
                inspected(t.messages, sessions[i].id@),
            ),
    ensures
        after_all(
            t,
            repair_marks(due(sessions, rows, redactions), true).push(Change::RestoreDuplicates),
        ) is Some,
        ({
            let end = after_all(
                t,
                repair_marks(due(sessions, rows, redactions), true).push(Change::RestoreDuplicates),
            )->0;
            &&& end.sessions == t.sessions
            &&& said(conversation(end.messages, session_id)) == said(
                conversation(restored(t.messages), session_id),
            )
            &&& pending(end.messages, session_id) == pending(t.messages, session_id)
            &&& none_set_aside(t.messages) ==> said(conversation(end.messages, session_id)) == said(
                conversation(t.messages, session_id),
            )
            &&& all_ordinary(t.messages) ==> end == t
        }),
{
    let all = findings(sessions, rows, redactions);
    let list = due(sessions, rows, redactions);
    let marks = repair_marks(list, true);
    lemma_due_members(sessions, rows, redactions);
    assert forall|k: int| 0 <= k < list.len() implies spares_prompts(
        t.messages,
        (#[trigger] list[k]).duplicates,
    ) by {
        let i = choose|i: int| 0 <= i < all.len() && all[i] == list[k];
        assert(rows_of(rows[i]@, inspected(t.messages, sessions[i].id@)));
        lemma_duplicates_spare_prompts(
            t,
            sessions[i].id@,
            rows[i]@,
            kept_rows(rows[i]@, redactions),
        );
    }
    lemma_marks_set_aside(t, list);
    let u = after_all(t, marks)->0;
    let undone = marks.push(Change::RestoreDuplicates);
    assert(undone.drop_last() =~= marks);
    lemma_restored_conversation(t.messages, u.messages, session_id);
    if none_set_aside(t.messages) {
        assert(restored(t.messages) =~= t.messages);
    }
    if all_ordinary(t.messages) {
        reveal_strlit("pending");
        reveal_strlit("duplicate");
        reveal_strlit("standard");
        assert(PENDING@.len() == 7 && DUPLICATE@.len() == 9 && STANDARD@.len() == 8);
        assert forall|i: int| 0 <= i < t.messages.len() implies #[trigger] restored(u.messages)[i]
            == t.messages[i] by {
            assert(u.messages[i] == t.messages[i] || t.messages[i].turn.kind != PENDING@
                && u.messages[i] == with_kind(t.messages[i], DUPLICATE@));
        }
        assert(restored(u.messages) =~= t.messages);
    }
}

} // verus!
