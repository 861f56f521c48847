//! What a repair keeps and what it drops, in terms of who said what.

#[allow(unused_imports)]
use crate::order::{lemma_rising_push, rising, stable_order, stable_order_is_stable};
#[allow(unused_imports)]
use crate::session::listing_laws::arranges;
#[allow(unused_imports)]
use crate::session::message_repository::StoredRow;
#[allow(unused_imports)]
use crate::session::model::Session;
#[allow(unused_imports)]
use crate::session::redaction::normalised;
#[allow(unused_imports)]
use crate::session::repair_service::{
    a_dropped_row_is_kept_as_a_later_copy, active_count, damaged, due, findings, found, kept_rows,
    newly_found, repair_done, repair_marks, repair_report, repair_row, row_keys, total_duplicates,
    worst_first, Found, SessionRepair,
};
#[allow(unused_imports)]
use crate::session::replays::{
    a_clean_conversation_survives_whole, all_positions, keys_at, repeats, survivors_hold_no_replay,
    survivors_keep_their_order,
};
#[allow(unused_imports)]
use crate::session::tables::Change;
#[allow(unused_imports)]
use crate::text::{decimal, truncated};
#[allow(unused_imports)]
use crate::text_laws::{a_column_is_filled_with_spaces, a_text_that_is_cut_ends_in_an_ellipsis};
use std::collections::hash_map::DefaultHasher;
use vstd::prelude::*;
#[allow(unused_imports)]
use vstd::std_specs::hash::DefaultHasherAdditionalSpecFns;
#[allow(unused_imports)]
use vstd::utf8::encode_utf8;

verus! {

// ---------------------------------------------------------------------
// Keys
// ---------------------------------------------------------------------

/// Two rows have one hash exactly when the whole of the role and of the text
/// that the message reads as, each closed by a byte that occurs in no text,
/// has one.
pub open spec fn hash_alike(a: StoredRow, b: StoredRow, redactions: Seq<Seq<char>>) -> bool {
    DefaultHasher::spec_finish(
        seq![
            encode_utf8(a.role@),
            seq![0xffu8],
            encode_utf8(normalised(a.content@, redactions)),
            seq![0xffu8],
        ],
    ) == DefaultHasher::spec_finish(
        seq![
            encode_utf8(b.role@),
            seq![0xffu8],
            encode_utf8(normalised(b.content@, redactions)),
            seq![0xffu8],
        ],
    )
}

/// The hash tells the rows apart: where two have one, one speaker says one
/// text.
pub open spec fn hashed_apart(rows: Seq<StoredRow>, redactions: Seq<Seq<char>>) -> bool {
    forall|a: int, b: int|
        0 <= a < rows.len() && 0 <= b < rows.len() && #[trigger] hash_alike(
            rows[a],
            rows[b],
            redactions,
        ) ==> rows[a].role@ == rows[b].role@ && normalised(rows[a].content@, redactions)
            == normalised(rows[b].content@, redactions)
}

proof fn lemma_keys(rows: Seq<StoredRow>, redactions: Seq<Seq<char>>)
    ensures
        row_keys(rows, redactions).len() == rows.len(),
        forall|a: int, b: int|
            #![trigger row_keys(rows, redactions)[a], row_keys(rows, redactions)[b]]
            0 <= a < rows.len() && 0 <= b < rows.len() ==> (row_keys(rows, redactions)[a]
                == row_keys(rows, redactions)[b] <==> hash_alike(rows[a], rows[b], redactions)),
{
}

/// A row that is dropped hashes like a kept row behind it: the role and the
/// whole of what the message reads as go into the hash.
pub proof fn a_dropped_row_hashes_like_a_later_kept_one(
    rows: Seq<StoredRow>,
    redactions: Seq<Seq<char>>,
    i: int,
)
    requires
        0 <= i < rows.len(),
        !kept_rows(rows, redactions).contains(i),
    ensures
        exists|j: int|
            i < j < rows.len() && kept_rows(rows, redactions).contains(j)
                && DefaultHasher::spec_finish(
                seq![
                    encode_utf8((#[trigger] rows[j]).role@),
                    seq![0xffu8],
                    encode_utf8(normalised(rows[j].content@, redactions)),
                    seq![0xffu8],
                ],
            ) == DefaultHasher::spec_finish(
                seq![
                    encode_utf8(rows[i].role@),
                    seq![0xffu8],
                    encode_utf8(normalised(rows[i].content@, redactions)),
                    seq![0xffu8],
                ],
            ),
{
    a_dropped_row_is_kept_as_a_later_copy(rows, redactions, i);
    let keep = kept_rows(rows, redactions);
    let keys = row_keys(rows, redactions);
    lemma_keys(rows, redactions);
    let k = choose|k: int|
        0 <= k < keep.len() && i < #[trigger] keep[k] < rows.len()
            && crate::session::repair_service::row_key(rows[keep[k]], redactions)
            == crate::session::repair_service::row_key(rows[i], redactions);
    assert(keys[keep[k]] == keys[i]);
    assert(keep.contains(keep[k]));
    let j = keep[k];
    assert(hash_alike(rows[j], rows[i], redactions));
}

/// A row that is dropped has a kept row behind it in which the same speaker
/// says the same, all of it, as far as the hash tells the rows apart.
pub proof fn a_dropped_row_is_said_again_behind_it(
    rows: Seq<StoredRow>,
    redactions: Seq<Seq<char>>,
    i: int,
)
    requires
        0 <= i < rows.len(),
        !kept_rows(rows, redactions).contains(i),
        hashed_apart(rows, redactions),
    ensures
        exists|j: int|
            i < j < rows.len() && kept_rows(rows, redactions).contains(j) && (
            #[trigger] rows[j]).role@ == rows[i].role@ && normalised(rows[j].content@, redactions)
                == normalised(rows[i].content@, redactions),
{
    a_dropped_row_hashes_like_a_later_kept_one(rows, redactions, i);
    let j = choose|j: int|
        i < j < rows.len() && kept_rows(rows, redactions).contains(j)
            && DefaultHasher::spec_finish(
            seq![
                encode_utf8((#[trigger] rows[j]).role@),
                seq![0xffu8],
                encode_utf8(normalised(rows[j].content@, redactions)),
                seq![0xffu8],
            ],
        ) == DefaultHasher::spec_finish(
            seq![
                encode_utf8(rows[i].role@),
                seq![0xffu8],
                encode_utf8(normalised(rows[i].content@, redactions)),
                seq![0xffu8],
            ],
        );
    assert(hash_alike(rows[j], rows[i], redactions));
    assert(rows[j].role@ == rows[i].role@);
}

/// Nothing that was said is lost: every row is kept, or a kept row has its
/// role and reads as it does, all of it, as far as the hash tells the rows
/// apart.
pub proof fn everything_said_is_kept(
    rows: Seq<StoredRow>,
    redactions: Seq<Seq<char>>,
    i: int,
)
    requires
        0 <= i < rows.len(),
        hashed_apart(rows, redactions),
    ensures
        exists|j: int|
            i <= j < rows.len() && kept_rows(rows, redactions).contains(j) && (
            #[trigger] rows[j]).role@ == rows[i].role@ && normalised(rows[j].content@, redactions)
                == normalised(rows[i].content@, redactions),
{
    if !kept_rows(rows, redactions).contains(i) {
        a_dropped_row_is_said_again_behind_it(rows, redactions, i);
    } else {
        assert(rows[i].role@ == rows[i].role@);
    }
}

/// The `len` rows from `at` on are followed by a copy of themselves.
pub open spec fn said_twice(
    rows: Seq<StoredRow>,
    redactions: Seq<Seq<char>>,
    at: int,
    len: int,
) -> bool {
    &&& 0 <= at
    &&& at + 2 * len <= rows.len()
    &&& forall|k: int|
        0 <= k < len ==> #[trigger] hash_alike(rows[at + k], rows[at + len + k], redactions)
}

/// Rows that all have different hashes are all kept.
pub proof fn rows_that_differ_are_all_kept(rows: Seq<StoredRow>, redactions: Seq<Seq<char>>, i: int)
    requires
        0 <= i < rows.len(),
        forall|a: int, b: int|
            0 <= a < b < rows.len() ==> !#[trigger] hash_alike(rows[a], rows[b], redactions),
    ensures
        kept_rows(rows, redactions).contains(i),
{
    assert forall|at: int, len: int|
        2 <= len implies !#[trigger] said_twice(rows, redactions, at, len) by {
        if said_twice(rows, redactions, at, len) {
            assert(hash_alike(rows[at + 0], rows[at + len + 0], redactions));
        }
    }
    a_conversation_without_replays_is_kept_whole(rows, redactions, i);
}

/// Every row is kept where no two rows or more are followed by a copy of
/// themselves; that one row follows its like drops nothing.
pub proof fn a_conversation_without_replays_is_kept_whole(
    rows: Seq<StoredRow>,
    redactions: Seq<Seq<char>>,
    i: int,
)
    requires
        0 <= i < rows.len(),
        forall|at: int, len: int| 2 <= len ==> !#[trigger] said_twice(rows, redactions, at, len),
    ensures
        kept_rows(rows, redactions).contains(i),
{
    let keys = row_keys(rows, redactions);
    lemma_keys(rows, redactions);
    assert forall|at: int, len: int| !#[trigger] repeats(keys, at, len) by {
        if repeats(keys, at, len) {
            assert forall|k: int| 0 <= k < len implies #[trigger] hash_alike(
                rows[at + k],
                rows[at + len + k],
                redactions,
            ) by {
                assert(keys.subrange(at, at + len)[k] == keys.subrange(at + len, at + 2 * len)[k]);
                assert(keys[at + k] == keys[at + len + k]);
            }
            assert(said_twice(rows, redactions, at, len));
        }
    }
    a_clean_conversation_survives_whole(keys);
    assert(all_positions(keys.len() as int)[i] == i);
}

/// Among the kept rows, which stand in their order, no chunk of two or more is
/// followed by a copy of itself.
pub proof fn the_kept_rows_hold_no_replay(
    rows: Seq<StoredRow>,
    redactions: Seq<Seq<char>>,
    at: int,
    len: int,
)
    requires
        0 <= at,
        2 <= len,
        at + 2 * len <= kept_rows(rows, redactions).len(),
    ensures
        forall|i: int|
            0 <= i < kept_rows(rows, redactions).len() ==> 0 <= #[trigger] kept_rows(
                rows,
                redactions,
            )[i] < rows.len(),
        forall|i: int, j: int|
            0 <= i < j < kept_rows(rows, redactions).len() ==> #[trigger] kept_rows(
                rows,
                redactions,
            )[i] < #[trigger] kept_rows(rows, redactions)[j],
        exists|k: int|
            0 <= k < len && !#[trigger] hash_alike(
                rows[kept_rows(rows, redactions)[at + k]],
                rows[kept_rows(rows, redactions)[at + len + k]],
                redactions,
            ),
{
    let keys = row_keys(rows, redactions);
    let keep = kept_rows(rows, redactions);
    let live = keys_at(keys, keep);
    lemma_keys(rows, redactions);
    survivors_keep_their_order(keys);
    survivors_hold_no_replay(keys, at, len);
    if forall|k: int|
        0 <= k < len ==> #[trigger] hash_alike(
            rows[keep[at + k]],
            rows[keep[at + len + k]],
            redactions,
        ) {
        assert forall|k: int| 0 <= k < len implies #[trigger] live.subrange(at, at + len)[k]
            == live.subrange(at + len, at + 2 * len)[k] by {
            assert(hash_alike(rows[keep[at + k]], rows[keep[at + len + k]], redactions));
            assert(live[at + k] == keys[keep[at + k]]);
            assert(live[at + len + k] == keys[keep[at + len + k]]);
        }
        assert(live.subrange(at, at + len) =~= live.subrange(at + len, at + 2 * len));
        assert(repeats(live, at, len));
    }
}

// ---------------------------------------------------------------------
// Findings
// ---------------------------------------------------------------------

proof fn lemma_found_positions(rows: Seq<StoredRow>, keep: Seq<int>) -> (at: Seq<int>)
    ensures
        rising(at, rows.len() as int),
        newly_found(rows, keep).len() == at.len(),
        forall|k: int|
            0 <= k < at.len() ==> #[trigger] newly_found(rows, keep)[k] == rows[at[k]].id@,
        forall|i: int| #[trigger]
            at.contains(i) <==> 0 <= i < rows.len() && rows[i].message_type@ != "duplicate"@
                && !keep.contains(i),
    decreases rows.len(),
{
    if rows.len() == 0 {
        Seq::empty()
    } else {
        let before = rows.drop_last();
        let last = rows.len() - 1;
        let rest = lemma_found_positions(before, keep);
        lemma_rising_push(rest, last);
        let at = if rows[last].message_type@ != "duplicate"@ && !keep.contains(last) {
            rest.push(last)
        } else {
            rest
        };
        assert forall|k: int| 0 <= k < at.len() implies #[trigger] newly_found(rows, keep)[k]
            == rows[at[k]].id@ by {
            if k < rest.len() {
                assert(newly_found(before, keep)[k] == before[rest[k]].id@);
                assert(0 <= rest[k] < before.len());
            }
        }
        assert forall|i: int| #[trigger] at.contains(i) <==> 0 <= i < rows.len()
            && rows[i].message_type@ != "duplicate"@ && !keep.contains(i) by {
            assert(rest.contains(i) <==> 0 <= i < before.len() && before[i].message_type@
                != "duplicate"@ && !keep.contains(i));
            assert(rest.push(last).contains(i) <==> i == last || rest.contains(i));
        }
        at
    }
}

/// What a repair names are the ids of the rows that are neither kept nor set
/// aside already, each of them, in their order.
pub proof fn a_repair_names_each_row_that_is_dropped(rows: Seq<StoredRow>, keep: Seq<int>)
    ensures
        exists|at: Seq<int>| #[trigger]
            rising(at, rows.len() as int) && newly_found(rows, keep).len() == at.len() && (forall|
                k: int,
            |
                0 <= k < at.len() ==> #[trigger] newly_found(rows, keep)[k] == rows[at[k]].id@) && (
            forall|i: int| #[trigger]
                at.contains(i) <==> 0 <= i < rows.len() && rows[i].message_type@ != "duplicate"@
                    && !keep.contains(i)),
{
    let at = lemma_found_positions(rows, keep);
    assert(rising(at, rows.len() as int));
}

proof fn lemma_active_positions(rows: Seq<StoredRow>) -> (at: Seq<int>)
    ensures
        rising(at, rows.len() as int),
        active_count(rows) == at.len(),
        forall|i: int| #[trigger]
            at.contains(i) <==> 0 <= i < rows.len() && rows[i].message_type@ != "duplicate"@,
    decreases rows.len(),
{
    if rows.len() == 0 {
        Seq::empty()
    } else {
        let before = rows.drop_last();
        let last = rows.len() - 1;
        let rest = lemma_active_positions(before);
        lemma_rising_push(rest, last);
        let at = if rows[last].message_type@ != "duplicate"@ {
            rest.push(last)
        } else {
            rest
        };
        assert forall|i: int| #[trigger] at.contains(i) <==> 0 <= i < rows.len()
            && rows[i].message_type@ != "duplicate"@ by {
            assert(rest.contains(i) <==> 0 <= i < before.len() && before[i].message_type@
                != "duplicate"@);
            assert(rest.push(last).contains(i) <==> i == last || rest.contains(i));
        }
        at
    }
}

/// As many rows are stored in a conversation as are not set aside.
pub proof fn the_rows_that_are_not_set_aside_are_counted(rows: Seq<StoredRow>)
    ensures
        exists|at: Seq<int>| #[trigger]
            rising(at, rows.len() as int) && active_count(rows) == at.len() && forall|i: int|
                #[trigger]
                at.contains(i) <==> 0 <= i < rows.len() && rows[i].message_type@ != "duplicate"@,
{
    let at = lemma_active_positions(rows);
    assert(rising(at, rows.len() as int));
}

/// Each session is looked at by itself: under its name, how many of its rows
/// count, and which of them a repair would drop.
pub proof fn a_finding_is_of_its_session(
    sessions: Seq<Session>,
    rows: Seq<Vec<StoredRow>>,
    redactions: Seq<Seq<char>>,
    i: int,
)
    requires
        0 <= i < sessions.len(),
        rows.len() == sessions.len(),
    ensures
        findings(sessions, rows, redactions).len() == sessions.len(),
        findings(sessions, rows, redactions)[i].name == sessions[i].name@,
        findings(sessions, rows, redactions)[i].stored == active_count(rows[i]@),
        findings(sessions, rows, redactions)[i].duplicates == newly_found(
            rows[i]@,
            kept_rows(rows[i]@, redactions),
        ),
{
}

/// The findings that name a row are reported and no others, in their order.
pub proof fn what_is_damaged_is_reported(a: Seq<Found>, b: Seq<Found>, f: Found)
    ensures
        damaged(Seq::<Found>::empty()).len() == 0,
        damaged(a + b) == damaged(a) + damaged(b),
        f.duplicates.len() > 0 ==> damaged(seq![f]) == seq![f],
        f.duplicates.len() == 0 ==> damaged(seq![f]).len() == 0,
    decreases b.len(),
{
    let none = Seq::<Found>::empty();
    assert(damaged(none) =~= none);
    assert(seq![f].drop_last() =~= none);
    assert(none.push(f) =~= seq![f]);
    if b.len() == 0 {
        assert(a + b =~= a);
        assert(damaged(a + b) =~= damaged(a) + damaged(b));
    } else {
        what_is_damaged_is_reported(a, b.drop_last(), f);
        assert((a + b).drop_last() =~= a + b.drop_last());
        assert((a + b).last() == b.last());
        assert(damaged(a + b) =~= damaged(a) + damaged(b));
    }
}

/// The report shows each finding once, the one that names the most rows first;
/// findings that name as many keep their order.
pub proof fn the_worst_is_reported_first(found: Seq<Found>)
    ensures
        exists|order: Seq<int>| #[trigger]
            arranges(order, found, worst_first(found)) && forall|i: int, j: int|
                #![trigger order[i], order[j]]
                0 <= i < j < order.len() ==> found[order[i]].duplicates.len()
                    > found[order[j]].duplicates.len() || (found[order[i]].duplicates.len()
                    == found[order[j]].duplicates.len() && order[i] < order[j]),
{
    let before = |a: int, b: int| found[a].duplicates.len() > found[b].duplicates.len();
    stable_order_is_stable(found.len(), before);
    let order = stable_order(found.len(), before);
    assert forall|i: int, j: int|
        #![trigger order[i], order[j]]
        0 <= i < j < order.len() implies found[order[i]].duplicates.len()
        > found[order[j]].duplicates.len() || (found[order[i]].duplicates.len()
        == found[order[j]].duplicates.len() && order[i] < order[j]) by {
        assert(!before(order[j], order[i]) && (before(order[i], order[j]) || order[i] < order[j]));
    }
    assert(arranges(order, found, worst_first(found)));
}

/// What is due is what is damaged, the worst first.
pub proof fn what_is_due_is_what_is_damaged(
    sessions: Seq<Session>,
    rows: Seq<Vec<StoredRow>>,
    redactions: Seq<Seq<char>>,
)
    ensures
        exists|order: Seq<int>| #[trigger]
            arranges(
                order,
                damaged(findings(sessions, rows, redactions)),
                due(sessions, rows, redactions),
            ),
{
    let found = damaged(findings(sessions, rows, redactions));
    let before = |a: int, b: int| found[a].duplicates.len() > found[b].duplicates.len();
    stable_order_is_stable(found.len(), before);
    assert(arranges(stable_order(found.len(), before), found, due(sessions, rows, redactions)));
}

/// The rows that all the findings name are added up.
pub proof fn the_total_adds_up(a: Seq<Found>, b: Seq<Found>, f: Found)
    ensures
        total_duplicates(Seq::<Found>::empty()) == 0,
        total_duplicates(seq![f]) == f.duplicates.len(),
        total_duplicates(a + b) == total_duplicates(a) + total_duplicates(b),
    decreases b.len(),
{
    assert(seq![f].drop_last() =~= Seq::<Found>::empty());
    assert(total_duplicates(seq![f].drop_last()) == 0);
    if b.len() == 0 {
        assert(a + b =~= a);
    } else {
        the_total_adds_up(a, b.drop_last(), f);
        assert((a + b).drop_last() =~= a + b.drop_last());
        assert((a + b).last() == b.last());
    }
}

/// A repair that is applied marks what each finding names, one write each; one
/// that is not applied writes nothing.
pub proof fn only_an_applied_repair_marks(found: Seq<Found>)
    ensures
        repair_marks(found, false).len() == 0,
        repair_marks(found, true).len() == found.len(),
        forall|k: int|
            0 <= k < found.len() ==> (#[trigger] repair_marks(found, true)[k]
                matches Change::MarkDuplicates(ids) && ids == found[k].duplicates),
{
}

/// The report has a line for each finding, in order, below four others. It
/// holds the name, how many rows are stored, how many of them are real and how
/// many are not; the second line has the total and the number of sessions.
pub proof fn each_finding_has_its_line(found: Seq<Found>, apply: bool, k: int)
    requires
        0 <= k < found.len(),
        0 <= found[k].stored - found[k].duplicates.len(),
    ensures
        repair_report(found, apply).len() == found.len() + if apply {
            5int
        } else {
            8
        },
        repair_report(found, apply)[1][3].text == decimal(total_duplicates(found) as nat),
        repair_report(found, apply)[1][5].text == decimal(found.len()),
        repair_report(found, apply)[4 + k].len() == 8,
        found[k].name.len() <= 32 ==> repair_report(found, apply)[4 + k][1].text.take(
            found[k].name.len() as int,
        ) == found[k].name,
        found[k].name.len() > 32 ==> repair_report(found, apply)[4 + k][1].text.take(31)
            == found[k].name.take(31),
        ({
            let stored = repair_report(found, apply)[4 + k][3].text;
            let number = decimal(found[k].stored as nat);
            stored.len() >= number.len() && stored.skip(stored.len() - number.len()) == number
        }),
        ({
            let left = repair_report(found, apply)[4 + k][5].text;
            let number = decimal((found[k].stored - found[k].duplicates.len()) as nat);
            left.len() >= number.len() && left.skip(left.len() - number.len()) == number
        }),
        ({
            let extra = repair_report(found, apply)[4 + k][7].text;
            let number = decimal(found[k].duplicates.len());
            extra.len() >= number.len() && extra.skip(extra.len() - number.len()) == number
        }),
{
    let f = found[k];
    let page = repair_report(found, apply);
    let line = repair_row(f);
    assert(page[4 + k] == line);
    let name = truncated(f.name, 32);
    a_text_that_is_cut_ends_in_an_ellipsis(f.name, 32);
    a_column_is_filled_with_spaces(name, 32);
    if f.name.len() <= 32 {
        assert(line[1].text.take(f.name.len() as int) =~= f.name);
    } else {
        assert(line[1].text.take(31) =~= f.name.take(31));
    }
    a_column_is_filled_with_spaces(decimal(f.stored as nat), 7);
    a_column_is_filled_with_spaces(decimal((f.stored - f.duplicates.len()) as nat), 7);
    a_column_is_filled_with_spaces(decimal(f.duplicates.len()), 7);
}

/// That a repair was made is told only when it was, with how many rows it
/// dropped.
pub proof fn only_an_applied_repair_is_told(found: Seq<Found>, apply: bool)
    ensures
        repair_done(found, apply).len() > 0 <==> apply && found.len() > 0,
        apply && found.len() > 0 ==> repair_done(found, apply)[0][3].text == decimal(
            total_duplicates(found) as nat,
        ),
{
}

/// A finding is seen as what it holds, at its place.
pub proof fn each_finding_is_seen_as_it_is(repairs: Seq<SessionRepair>, i: int, k: int)
    requires
        0 <= i < repairs.len(),
        0 <= k < repairs[i].duplicates@.len(),
    ensures
        found(repairs).len() == repairs.len(),
        found(repairs)[i].name == repairs[i].name@,
        found(repairs)[i].stored == repairs[i].stored,
        found(repairs)[i].duplicates.len() == repairs[i].duplicates@.len(),
        found(repairs)[i].duplicates[k] == repairs[i].duplicates@[k]@,
{
}

/// The report says whether a repair is made or only found to be due, and in
/// the second case that nothing was changed.
pub proof fn a_report_says_whether_anything_changes(found: Seq<Found>, apply: bool)
    requires
        found.len() > 0,
    ensures
        repair_report(found, apply)[1][1].text == if apply {
            "Repairing"@
        } else {
            "Found"@
        },
        !apply ==> repair_report(found, apply)[5 + found.len() as int][1].text
            == "Nothing changed."@,
        apply ==> repair_report(found, apply).last().len() == 0,
{
}

/// Where nothing is due the report says so, whether or not a repair was asked
/// for.
pub proof fn a_report_without_findings_says_so(apply: bool)
    ensures
        repair_report(Seq::<Found>::empty(), apply).len() == 3,
        repair_report(Seq::<Found>::empty(), apply)[1].len() == 3,
        repair_report(Seq::<Found>::empty(), apply)[1][2].text
            == " No duplicated messages found."@,
{
}

} // verus!
