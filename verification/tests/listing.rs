//! Listings, searches and suggestions.

use termai::screen::{Page, Style};
use termai::session::entity::SessionEntity;
use termai::session::listing::{
    fetch_all_sessions, fetch_sessions_with_options, first_line, search_sessions, summarise,
    SessionSortOrder,
};
use termai::session::message_repository::MessageMatch;
use termai::session::similar::{edit_distance, suggest_similar_sessions};
use termai::time::Timestamp;

fn at(seconds: i64) -> Timestamp {
    Timestamp { seconds, nanos: 0 }
}

fn entity(name: &str, current: i32, seconds: i64) -> SessionEntity {
    SessionEntity::new(
        format!("id-{name}"),
        name.to_string(),
        at(seconds + 86_400),
        current,
        at(seconds),
    )
}

fn text_of(page: &Page) -> Vec<String> {
    page.lines
        .iter()
        .map(|line| line.spans.iter().map(|span| span.text.as_str()).collect())
        .collect()
}

fn names(page: &Page) -> Vec<String> {
    page.lines
        .iter()
        .filter(|line| line.spans.len() == 9)
        .map(|line| line.spans[2].text.trim_end().to_string())
        .collect()
}

fn rows() -> (Vec<SessionEntity>, Vec<Option<i64>>, Vec<Option<String>>) {
    (
        vec![
            entity("bravo", 0, 100),
            entity("alpha", 1, 300),
            entity("charlie", 0, 200),
        ],
        vec![Some(2), None, Some(12)],
        vec![
            Some("\n  Deploy the API \nsecond".to_string()),
            None,
            Some("fix the tests".to_string()),
        ],
    )
}

#[test]
fn the_first_line_that_is_not_blank_is_the_preview() {
    assert_eq!(first_line("\n \t\n  hello \r\nworld"), "hello");
    assert_eq!(first_line("   \n\n"), "");
    assert_eq!(first_line(&"x".repeat(300)).len(), 200);
}

#[test]
fn a_table_shows_every_session() {
    let (rows, counts, prompts) = rows();
    let page = fetch_all_sessions(&rows, &counts, &prompts, at(300 + 120));
    assert_eq!(
        text_of(&page),
        vec![
            "",
            "  SESSION  LAST USED      MSGS  STARTED WITH",
            "* alpha    2 minutes ago     0  —",
            "  charlie  3 minutes ago    12  fix the tests",
            "  bravo    5 minutes ago     2  Deploy the API",
            "",
            "  Resume: termai chat --session <name>",
            "  Search:  termai sessions find \"<text>\"",
            "",
        ]
    );
    assert_eq!(page.lines[1].spans[1].style, Style::Bold);
    assert_eq!(page.lines[2].spans[0].style, Style::BrightGreen);
    assert_eq!(page.lines[2].spans[2].style, Style::BrightCyan);
    assert_eq!(page.lines[2].spans[8].style, Style::Dimmed);
}

#[test]
fn long_names_are_cut_and_short_columns_keep_their_headings() {
    let long = "n".repeat(50);
    let rows = vec![entity(&long, 0, 0)];
    let page = fetch_all_sessions(&rows, &vec![Some(1)], &vec![Some("p".repeat(60))], at(0));
    let lines = text_of(&page);
    assert_eq!(
        lines[2],
        format!("  {}…  just now      1  {}…", "n".repeat(39), "p".repeat(47))
    );
}

#[test]
fn an_empty_listing_says_so() {
    let page = fetch_all_sessions(&vec![], &vec![], &vec![], at(0));
    assert_eq!(
        text_of(&page),
        vec![
            "",
            "  No sessions yet.",
            "",
            "  Every chat is saved automatically — run `termai chat` to start one.",
            "",
        ]
    );
}

#[test]
fn a_listing_is_sorted_filtered_and_limited() {
    let (rows, counts, prompts) = rows();
    let list = |filter: Option<&str>, limit: Option<usize>, sort: SessionSortOrder| {
        names(&fetch_sessions_with_options(
            &rows, &counts, &prompts, filter, limit, sort, at(1000),
        ))
    };
    assert_eq!(
        list(None, None, SessionSortOrder::Name),
        vec!["alpha", "bravo", "charlie"]
    );
    assert_eq!(
        list(None, None, SessionSortOrder::Date),
        vec!["alpha", "charlie", "bravo"]
    );
    assert_eq!(
        list(None, None, SessionSortOrder::Messages),
        vec!["charlie", "bravo", "alpha"]
    );
    assert_eq!(
        list(None, Some(2), SessionSortOrder::Name),
        vec!["alpha", "bravo"]
    );
    assert_eq!(
        list(Some("ALPHA"), None, SessionSortOrder::Name),
        vec!["alpha"]
    );
    // What was said counts too, in any case.
    assert_eq!(
        list(Some("deploy THE"), None, SessionSortOrder::Name),
        vec!["bravo"]
    );
    assert!(list(Some("nothing"), None, SessionSortOrder::Name).is_empty());
}

#[test]
fn what_cannot_be_read_counts_as_nothing() {
    let summary = summarise(&entity("s", 0, 5), None, &None);
    assert_eq!(summary.message_count, 0);
    assert_eq!(summary.preview, "");
    assert!(!summary.current);
    let summary = summarise(&entity("s", 1, 5), Some(4), &Some(" q \n".to_string()));
    assert_eq!(summary.message_count, 4);
    assert_eq!(summary.preview, "q");
    assert!(summary.current);
}

fn hit(name: &str, role: &str, content: &str) -> MessageMatch {
    MessageMatch {
        session_name: name.to_string(),
        role: role.to_string(),
        content: content.to_string(),
    }
}

#[test]
fn a_search_shows_its_hits() {
    let page = search_sessions(&vec![hit("work", "user", "\n a line \nb")], "line");
    assert_eq!(
        text_of(&page),
        vec![
            "",
            "  1 match for line",
            "",
            "  work (user)",
            "    a line",
            "",
            "  Resume: termai chat --session <name>",
            "",
        ]
    );
    assert_eq!(page.lines[3].spans[1].style, Style::BrightCyanBold);
    let two = vec![hit("a", "user", "x"), hit("b", "assistant", "y")];
    assert_eq!(text_of(&search_sessions(&two, "q"))[1], "  2 matches for q");
    assert_eq!(
        text_of(&search_sessions(&vec![], "q")),
        vec!["", "  No conversation mentions q.", ""]
    );
}

#[test]
fn edit_distance_counts_single_changes() {
    assert_eq!(edit_distance("kitten", "sitting"), 3);
    assert_eq!(edit_distance("", "abc"), 3);
    assert_eq!(edit_distance("abc", ""), 3);
    assert_eq!(edit_distance("same", "same"), 0);
    assert_eq!(edit_distance("flaw", "lawn"), 2);
    assert_eq!(edit_distance("lawn", "flaw"), 2);
    assert_eq!(edit_distance("é", "e"), 1);
    // A detour is no shorter.
    for (a, b, c) in [
        ("kitten", "sitting", "sit"),
        ("", "abc", "b"),
        ("work", "worm", "form"),
    ] {
        assert!(edit_distance(a, c) <= edit_distance(a, b) + edit_distance(b, c));
    }
}

#[test]
fn close_names_are_suggested_nearest_first() {
    let names: Vec<String> = ["wrok", "work", "homework", "unrelated", "works"]
        .iter()
        .map(|name| name.to_string())
        .collect();
    // Names that contain what was typed come first, in order of name.
    assert_eq!(
        suggest_similar_sessions(&names, "WORK"),
        vec!["homework", "work", "works"]
    );
    // Equally near names come in order of name.
    assert_eq!(
        suggest_similar_sessions(&names, "wrko"),
        vec!["work", "works", "wrok"]
    );
    assert!(suggest_similar_sessions(&names, "zzz").is_empty());
    // One typo, and one more for every four bytes of the name.
    assert_eq!(
        suggest_similar_sessions(&vec!["abcdefgh".to_string()], "xyzdefgh"),
        vec!["abcdefgh"]
    );
    assert!(suggest_similar_sessions(&vec!["abcdefg".to_string()], "xyzdefg").is_empty());
}
