//! Repair of conversations that hold their own replays.

use termai::screen::{Page, Style};
use termai::session::message_repository::StoredRow;
use termai::session::model::Session;
use termai::session::redaction::{collapse_uuids, normalise, replace_ignoring_case, MARKER};
use termai::session::repair_service::{
    find_duplicates, hash_key, keep_indices, repair, undo_report, RepairFailure, SessionRepair,
};
use termai::session::replays::{strip_adjacent_replays, strip_replays};
use termai::time::Timestamp;

fn row(role: &str, content: &str) -> StoredRow {
    StoredRow {
        id: format!("{role}:{content}"),
        role: role.to_string(),
        content: content.to_string(),
        message_type: "standard".to_string(),
    }
}

/// Build the exact shape that a save of everything on every turn produces:
/// after turn k the whole conversation so far is inserted again.
fn replayed(turns: usize) -> Vec<StoredRow> {
    let mut rows = Vec::new();
    for turn in 1..=turns {
        for i in 1..=turn {
            rows.push(row("user", &format!("q{i}")));
            rows.push(row("assistant", &format!("a{i}")));
        }
    }
    rows
}

fn kept_contents(rows: &Vec<StoredRow>, redactions: &Vec<String>) -> Vec<String> {
    keep_indices(rows, redactions)
        
        .into_iter()
        .map(|index| rows[index].content.clone())
        .collect()
}

fn session(name: &str) -> Session {
    let mut session = Session::new_temporary("s".to_string(), Timestamp::default());
    session.name = name.to_string();
    session
}

fn text_of(page: &Page) -> Vec<String> {
    page.lines
        .iter()
        .map(|line| line.spans.iter().map(|span| span.text.as_str()).collect())
        .collect()
}

#[test]
fn a_replayed_conversation_is_reduced_to_what_was_actually_said() {
    let rows = replayed(5);
    assert_eq!(rows.len(), 30);
    assert_eq!(
        kept_contents(&rows, &vec![]),
        vec!["q1", "a1", "q2", "a2", "q3", "a3", "q4", "a4", "q5", "a5"]
    );
}

#[test]
fn a_clean_conversation_is_left_alone() {
    let rows = vec![
        row("user", "q1"),
        row("assistant", "a1"),
        row("user", "q2"),
        row("assistant", "a2"),
    ];
    assert_eq!(
        kept_contents(&rows, &vec![]),
        vec!["q1", "a1", "q2", "a2"]
    );
}

/// The user asking the same thing twice in a row is not a replay.
#[test]
fn a_genuinely_repeated_message_survives() {
    let rows = vec![
        row("user", "retry please"),
        row("assistant", "sure"),
        row("user", "retry please"),
        row("assistant", "here you go"),
    ];
    assert_eq!(
        kept_contents(&rows, &vec![]),
        vec!["retry please", "sure", "retry please", "here you go"]
    );
}

/// Two runs against the same session each leave their own replays.
#[test]
fn replays_from_separate_runs_are_both_removed() {
    let mut rows = replayed(2);
    rows.extend(vec![
        row("user", "q9"),
        row("assistant", "a9"),
        row("user", "q9"),
        row("assistant", "a9"),
        row("user", "q10"),
        row("assistant", "a10"),
    ]);
    assert_eq!(
        kept_contents(&rows, &vec![]),
        vec!["q1", "a1", "q2", "a2", "q9", "a9", "q10", "a10"]
    );
}

/// Copies of one message can carry different redaction placeholders, and a
/// term that could no longer be reversed stays substituted in only some of
/// them. They are still the same message.
#[test]
fn copies_damaged_by_redaction_still_match() {
    let redactions = vec!["rim".to_string()];
    let rows = vec![
        row("user", "check the primitives in 550e8400-e29b-41d4-a716-446655440000"),
        row("assistant", "ok"),
        row("user", "check the p2b7d4f9c-1111-4222-8333-9444aaaa5555itives in 6ba7b810-9dad-11d1-80b4-00c04fd430c8"),
        row("assistant", "ok"),
        row("user", "second question"),
        row("assistant", "second answer"),
    ];
    assert_eq!(
        kept_contents(&rows, &redactions).len(),
        4,
        "the damaged copy of the first turn should be recognised as a replay"
    );
}

#[test]
fn normalise_collapses_uuids_and_redaction_terms() {
    let redactions = vec!["systel".to_string(), "db systel".to_string()];
    assert_eq!(
        normalise("hello 550e8400-e29b-41d4-a716-446655440000", &vec![]),
        format!("hello {MARKER}")
    );
    // The longest term wins, whichever order redaction used.
    assert_eq!(
        normalise("db systel here", &redactions),
        format!("{MARKER} here")
    );
}

#[test]
fn replacing_ignores_case_and_keeps_the_rest() {
    assert_eq!(
        replace_ignoring_case("Ab aB x AB", "ab", "-"),
        "- - x -"
    );
    assert_eq!(
        replace_ignoring_case("\u{e9}t\u{e9} AB \u{e9}", "ab", "-"),
        "\u{e9}t\u{e9} - \u{e9}"
    );
    // The lowercase form of the first letter is two characters long.
    assert_eq!(
        replace_ignoring_case("\u{130} ab", "ab", "-"),
        "\u{130} -"
    );
    assert_eq!(
        replace_ignoring_case("\u{130}abc", "abc", "X"),
        "\u{130}X"
    );
    assert_eq!(
        replace_ignoring_case("\u{c9}T\u{c9} \u{e9}t\u{e9}", "\u{e9}T\u{e9}", "-"),
        "- -"
    );
    // The capital sigma is that of both lowercase ones, which differ.
    assert_eq!(
        replace_ignoring_case("\u{3b1}\u{3c2}", "\u{3b1}\u{3c3}", "X"),
        "\u{3b1}\u{3c2}"
    );
    assert_eq!(
        replace_ignoring_case("\u{391}\u{3a3}", "\u{3b1}\u{3c2}", "X"),
        "X"
    );
    assert_eq!(
        replace_ignoring_case(
            "\u{39f}\u{394}\u{39f}\u{3a3} \u{3bf}\u{3b4}\u{3bf}\u{3c2}",
            "\u{3bf}\u{3b4}\u{3bf}\u{3c3}",
            "-"
        ),
        "- \u{3bf}\u{3b4}\u{3bf}\u{3c2}"
    );
    assert_eq!(replace_ignoring_case("aaa", "aa", "-"), "-a");
    assert_eq!(replace_ignoring_case("", "a", "-"), "");
}

/// The length that counts is that in bytes.
#[test]
fn the_longest_term_is_the_one_of_most_bytes() {
    let redactions = vec!["\u{e9}abc".to_string(), "\u{e9}\u{e9}\u{e9}".to_string()];
    assert_eq!(
        normalise("\u{e9}\u{e9}\u{e9}abc", &redactions),
        format!("{MARKER}abc")
    );
    let redactions = vec!["bb".to_string(), "aab".to_string()];
    assert_eq!(normalise("aabb", &redactions), format!("{MARKER}b"));
}

#[test]
fn blank_terms_are_ignored() {
    let redactions = vec!["  ".to_string(), " Secret ".to_string()];
    assert_eq!(
        normalise("a secret thing", &redactions),
        format!("a {MARKER} thing")
    );
}

#[test]
fn only_whole_uuids_collapse() {
    assert_eq!(
        collapse_uuids("550e8400-e29b-41d4-a716-44665544000"),
        "550e8400-e29b-41d4-a716-44665544000"
    );
    assert_eq!(
        collapse_uuids("x550E8400-E29B-41D4-A716-446655440000y"),
        format!("x{MARKER}y")
    );
}

#[test]
fn a_chunk_of_one_is_no_replay() {
    assert_eq!(strip_adjacent_replays(&vec![1, 1, 2]), vec![0, 1, 2]);
    assert_eq!(strip_adjacent_replays(&vec![1, 2, 1, 2, 3]), vec![2, 3, 4]);
    assert_eq!(strip_adjacent_replays(&vec![]), Vec::<usize>::new());
}

#[test]
fn what_is_dropped_stands_again_further_on() {
    let keys = vec![1, 2, 1, 2, 3, 1, 2, 3, 1, 2, 3, 4, 3, 4];
    let keep = strip_replays(&keys);
    for i in 0..keys.len() {
        if !keep.contains(&i) {
            assert!(keep.iter().any(|j| *j > i && keys[*j] == keys[i]));
        }
    }
    assert!(keep.contains(&12) && keep.contains(&13));
    assert_eq!(strip_replays(&vec![5, 5]), vec![0, 1]);
}

#[test]
fn the_role_and_the_text_make_the_key() {
    assert_eq!(hash_key("user", "hello"), hash_key("user", "hello"));
    assert_ne!(hash_key("user", "hello"), hash_key("assistant", "hello"));
    assert_ne!(hash_key("user", "hello"), hash_key("user", "hell"));
    assert_ne!(hash_key("ab", "c"), hash_key("a", "bc"));
}

#[test]
fn rows_that_were_set_aside_are_not_reported_again() {
    let mut rows = replayed(2);
    rows[0].message_type = "duplicate".to_string();
    rows[1].message_type = "duplicate".to_string();
    let found = find_duplicates(&session("work"), &rows, &vec![]);
    assert!(found.duplicates.is_empty());
    assert_eq!(found.stored, 4);

    let fresh = find_duplicates(&session("work"), &replayed(2), &vec![]);
    assert_eq!(fresh.duplicates, vec!["user:q1", "assistant:a1"]);
    assert_eq!(fresh.stored, 6);
    assert_eq!(fresh.kept(), 4);
}

#[test]
fn the_report_lists_the_worst_session_first() {
    let sessions = vec![session("small"), session("clean"), session("large")];
    let rows = vec![replayed(2), vec![row("user", "q")], replayed(3)];
    let plan = repair(&sessions, &rows, &vec![], false);
    let names: Vec<&str> = plan.repairs.iter().map(|r| r.name.as_str()).collect();
    assert_eq!(names, vec!["large", "small"]);
    assert!(plan.marks.is_empty());
    assert!(plan.done.lines.is_empty());
    let lines = text_of(&plan.report);
    assert_eq!(lines[1], "  Found 8 duplicated message(s) across 2 session(s)");
    assert_eq!(
        lines[3],
        "  SESSION                            STORED     REAL    EXTRA"
    );
    assert_eq!(
        lines[4],
        "  large                                  12        6        6"
    );
    assert_eq!(
        lines[5],
        "  small                                   6        4        2"
    );
    assert_eq!(
        lines[7],
        "  Nothing changed. Re-run with --apply to clean these up."
    );
    assert_eq!(lines.len(), 10);
    assert_eq!(plan.report.lines[4].spans[1].style, Style::BrightCyan);
    assert_eq!(plan.report.lines[4].spans[7].style, Style::BrightRed);

    let plan = repair(&sessions, &rows, &vec![], true);
    assert_eq!(plan.marks.len(), 2);
    assert_eq!(
        text_of(&plan.report)[1],
        "  Repairing 8 duplicated message(s) across 2 session(s)"
    );
    assert_eq!(
        text_of(&plan.done)[0],
        "  ✓ 8 message(s) removed from their conversations."
    );
}

#[test]
fn nothing_to_repair_is_said() {
    let plan = repair(&vec![session("clean")], &vec![vec![row("user", "q")]], &vec![], true);
    assert_eq!(
        text_of(&plan.report),
        vec!["", "  ✓ No duplicated messages found.", ""]
    );
    assert!(plan.marks.is_empty());
    assert_eq!(
        text_of(&undo_report(3)),
        vec!["", "  ↩ 3 message(s) put back into their conversations.", ""]
    );
}

#[test]
fn letters_that_grow_in_lowercase_are_repaired_like_others() {
    let redactions = vec!["ab".to_string()];
    let rows = vec![
        row("user", "\u{130} ab"),
        row("assistant", "ok"),
        row("user", "\u{130} 550e8400-e29b-41d4-a716-446655440000"),
        row("assistant", "ok"),
        row("user", "more"),
    ];
    assert_eq!(keep_indices(&rows, &redactions), vec![2, 3, 4]);
    let plan = repair(&vec![session("s")], &vec![rows], &redactions, true);
    assert_eq!(
        plan.repairs[0].duplicates,
        vec!["user:\u{130} ab", "assistant:ok"]
    );
}

/// A term inside a marker is no term: what was replaced stays replaced.
#[test]
fn a_placeholder_and_a_term_read_alike() {
    let uuid = "550e8400-e29b-41d4-a716-446655440000";
    let redactions = vec!["x".to_string()];
    assert_eq!(MARKER, "\u{0}x\u{0}");
    assert_eq!(normalise(uuid, &redactions), MARKER);
    assert_eq!(normalise("x", &redactions), MARKER);
    assert_eq!(normalise("X", &redactions), MARKER);
    // A second term does not find its letters in what the first one left.
    let several = vec!["abc".to_string(), "x".to_string(), "\u{0}".to_string()];
    assert_eq!(normalise("abc", &several), MARKER);
    assert_eq!(normalise(uuid, &several), MARKER);
    assert_eq!(normalise("axb", &several), format!("a{MARKER}b"));
}

#[test]
fn a_copy_reads_alike_whether_or_not_the_placeholder_stayed() {
    let uuid = "2b7d4f9c-1111-4222-8333-9444aaaa5555";
    let redactions = vec!["im".to_string(), "Rim".to_string(), "tives".to_string()];
    let whole = normalise("check the primitives of RIM", &redactions);
    assert_eq!(whole, format!("check the p{MARKER}i{MARKER} of {MARKER}"));
    for copy in [
        format!("check the p{uuid}itives of RIM"),
        format!("check the primi{uuid} of rim"),
        format!("check the p{uuid}i{uuid} of {uuid}"),
    ] {
        assert_eq!(normalise(&copy, &redactions), whole);
    }
}

#[test]
fn repair_failures_name_what_was_being_done() {
    assert_eq!(
        RepairFailure::Restoring.message("x"),
        "could not restore messages: x"
    );
    assert_eq!(
        RepairFailure::Listing.message("x"),
        "could not list sessions: x"
    );
    assert_eq!(
        RepairFailure::Reading("n".to_string()).message("x"),
        "could not read session 'n': x"
    );
    assert_eq!(
        RepairFailure::Marking("n".to_string()).message("x"),
        "could not repair 'n': x"
    );
}

#[test]
fn what_is_kept_is_what_is_not_a_duplicate() {
    let found = SessionRepair {
        name: "n".to_string(),
        stored: 5,
        duplicates: vec!["a".to_string(), "b".to_string()],
    };
    assert_eq!(found.kept(), 3);
}
