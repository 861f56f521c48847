//! Texts, times, statements and rows.

use std::collections::HashSet;
use termai::repository::schema::{is_duplicate_column, Column, Step, Table};
use termai::repository::statement::{BadColumn, Value};
use termai::session::entity::SessionEntity;
use termai::session::message_repository::{
    escape_like, row_to_message_entity, row_to_stored_row, search_messages,
};
use termai::session::model::{Message, Role, Session};
use termai::session::session_repository::{row_to_session_entity, upsert_session};
use termai::session::tables::Write;
use termai::text::{
    align_left, align_right, blank, contains, decimal_text, equal_ignoring_case, is_before, join,
    lines, signed_text, split_at_each, starts_with, take_chars, trim, truncate,
};
use termai::time::{
    day_text, format_time, humanise_age, humanise_seconds, legacy_expires_at, parse_time,
    Timestamp,
};

fn at(seconds: i64) -> Timestamp {
    Timestamp { seconds, nanos: 0 }
}

#[test]
fn times_are_written_and_read_back() {
    assert_eq!(format_time(at(0)), "1970-01-01 00:00:00");
    assert_eq!(format_time(at(1_704_103_200)), "2024-01-01 10:00:00");
    assert_eq!(parse_time("2024-01-01 10:00:00"), at(1_704_103_200));
    assert_eq!(parse_time("2024-01-01T10:00:00"), at(1_704_103_200));
    assert_eq!(parse_time("yesterday"), Timestamp::default());
    assert_eq!(
        parse_time(&format_time(Timestamp {
            seconds: 5,
            nanos: 9
        })),
        at(5)
    );
    assert_eq!(legacy_expires_at(at(0)), "1970-01-02 00:00:00");
    assert_eq!(day_text(at(1_704_103_200)), "20240101");
}

#[test]
fn a_time_that_cannot_be_written_is_told_apart() {
    assert!(at(0).is_storable());
    assert!(!at(i64::MAX).is_storable());
    assert!(!Timestamp {
        seconds: 0,
        nanos: 1_500_000_000
    }
    .is_storable());
    assert!(Timestamp {
        seconds: 59,
        nanos: 1_500_000_000
    }
    .is_storable());
    assert!(at(2).is_after(at(1)));
    assert!(!at(1).is_after(at(1)));
}

#[test]
fn ages_are_in_the_largest_unit() {
    assert_eq!(humanise_seconds(-5), "just now");
    assert_eq!(humanise_seconds(59), "just now");
    assert_eq!(humanise_seconds(60), "1 minute ago");
    assert_eq!(humanise_seconds(7199), "1 hour ago");
    assert_eq!(humanise_seconds(2 * 86_400), "2 days ago");
    assert_eq!(humanise_seconds(2_592_000), "1 month ago");
    assert_eq!(humanise_seconds(3 * 31_536_000), "3 years ago");
    assert_eq!(humanise_age(at(100), at(100 + 180)), "3 minutes ago");
    // A fraction of a second is cut off.
    assert_eq!(
        humanise_age(
            Timestamp {
                seconds: 0,
                nanos: 1
            },
            at(60)
        ),
        "just now"
    );
    // A leap second is counted when the earlier time lies in it.
    let leap = |seconds: i64, nanos: u32| Timestamp { seconds, nanos };
    assert_eq!(humanise_age(leap(59, 1_000_000_000), at(119)), "1 minute ago");
    assert_eq!(humanise_age(leap(59, 1_500_000_000), at(119)), "just now");
    assert_eq!(humanise_age(at(59), leap(119, 1_900_000_000)), "1 minute ago");
    assert_eq!(humanise_age(leap(86399, 1_000_000_000), at(86460)), "1 minute ago");
    assert_eq!(humanise_age(leap(86399, 1_000_000_001), at(86460)), "just now");
    assert_eq!(humanise_age(at(300), at(0)), "just now");
}

#[test]
fn white_space_is_what_unicode_says() {
    let spaces = [
        '\t', '\n', '\u{b}', '\u{c}', '\r', ' ', '\u{85}', '\u{a0}', '\u{1680}', '\u{2000}',
        '\u{2001}', '\u{2002}', '\u{2003}', '\u{2004}', '\u{2005}', '\u{2006}', '\u{2007}',
        '\u{2008}', '\u{2009}', '\u{200a}', '\u{2028}', '\u{2029}', '\u{202f}', '\u{205f}',
        '\u{3000}',
    ];
    for c in (0..=0x10ffff).filter_map(char::from_u32) {
        assert_eq!(c.is_whitespace(), spaces.contains(&c));
    }
    assert_eq!(trim("\u{3000}a\u{200b}\u{85}"), "a\u{200b}");
}

#[test]
fn the_calendar_has_a_first_and_a_last_second() {
    assert!(at(0).is_valid());
    assert!(at(8210266876799).is_valid());
    assert!(!at(8210266876800).is_valid());
    assert!(!at(8210266876799).is_storable());
    assert!(!at(-8334601228801).is_valid());
    let leap = |seconds: i64| Timestamp {
        seconds,
        nanos: 1_500_000_000,
    };
    assert!(leap(59).is_valid());
    assert!(leap(-1).is_valid());
    assert!(!leap(58).is_valid());
}

#[test]
fn texts_are_trimmed_split_and_joined() {
    assert_eq!(trim(" \t a b\u{a0}\n"), "a b");
    assert!(blank(" \u{2003}\n"));
    assert!(!blank(" x "));
    assert_eq!(lines("a\r\nb\n\nc"), vec!["a", "b", "", "c"]);
    assert_eq!(lines("a\n"), vec!["a"]);
    assert!(lines("").is_empty());
    assert_eq!(lines("a\rb\r"), vec!["a\rb\r"]);
    assert_eq!(split_at_each("a--b", '-'), vec!["a", "", "b"]);
    assert_eq!(
        join(&vec!["a".to_string(), "b".to_string()], ", "),
        "a, b"
    );
    assert_eq!(join(&vec![], ", "), "");
    assert_eq!(take_chars("éàü", 2), "éà");
}

#[test]
fn texts_are_searched_and_compared() {
    assert!(contains("abc", "bc"));
    assert!(contains("abc", ""));
    assert!(!contains("abc", "cb"));
    assert!(starts_with("chat-x", "chat-"));
    assert!(!starts_with("cha", "chat"));
    assert!(equal_ignoring_case("Integer", "INTEGER"));
    assert!(!equal_ignoring_case("É", "é"));
    assert!(is_before("a", "ab"));
    assert!(is_before("Z", "a"));
    assert!(!is_before("a", "a"));
    assert!(is_before("z", "é"));
}

#[test]
fn numbers_and_columns_are_written() {
    assert_eq!(decimal_text(0), "0");
    assert_eq!(decimal_text(u64::MAX), "18446744073709551615");
    assert_eq!(signed_text(i64::MIN), "-9223372036854775808");
    assert_eq!(align_left("é", 3), "é  ");
    assert_eq!(align_left("long", 3), "long");
    assert_eq!(align_right("7", 4), "   7");
    assert_eq!(truncate("abcdef", 4), "abc…");
    assert_eq!(truncate("abcd", 4), "abcd");
}

#[test]
fn wildcards_are_escaped() {
    assert_eq!(escape_like("50%_\\x"), "50\\%\\_\\\\x");
    assert_eq!(
        escape_like("50%_\\x"),
        escape_like("50%") + &escape_like("_\\x")
    );
    assert_ne!(escape_like("\\%"), escape_like("%"));
    let statement = search_messages("a%", 7);
    assert!(matches!(&statement.params[0], Value::Text(p) if p == "%a\\%%"));
    assert!(matches!(statement.params[3], Value::Integer(7)));
}

#[test]
fn a_session_row_names_its_first_bad_column() {
    let text = |s: &str| Value::Text(s.to_string());
    let good = vec![
        text("id"),
        text("name"),
        text("2024-01-01 10:00:00"),
        Value::Integer(1),
        text("2024-01-01 09:00:00"),
    ];
    let row = row_to_session_entity(&good).ok().expect("a session");
    assert_eq!(row.name, "name");
    assert_eq!(row.current, 1);
    assert_eq!(row.expires_at, at(1_704_103_200));
    let mut bad = good;
    bad[3] = Value::Integer(i64::MAX);
    assert!(matches!(row_to_session_entity(&bad), Err(BadColumn(3))));
    bad[1] = Value::Null;
    assert!(matches!(row_to_session_entity(&bad), Err(BadColumn(1))));
}

#[test]
fn a_message_row_without_a_kind_is_an_ordinary_one() {
    let text = |s: &str| Value::Text(s.to_string());
    let row = vec![
        text("id"),
        text("session"),
        text("user"),
        text("hello"),
        Value::Null,
        Value::Null,
    ];
    let entity = row_to_message_entity(&row).ok().expect("a message");
    assert_eq!(entity.message_type, "standard");
    assert_eq!(entity.compaction_metadata, None);
    assert!(row_to_message_entity(&vec![Value::Null]).is_err());
    assert!(row_to_stored_row(&vec![text("id")]).is_err());
}

#[test]
fn a_session_is_written_with_its_legacy_column() {
    let statement = upsert_session("i", "n", at(0), true);
    let params: Vec<String> = statement.params.iter().map(|v| format!("{v:?}")).collect();
    assert_eq!(
        params,
        vec![
            "Text(\"i\")",
            "Text(\"n\")",
            "Text(\"1970-01-02 00:00:00\")",
            "Integer(1)",
            "Text(\"1970-01-01 00:00:00\")",
        ]
    );
    let deleting = Write::DeleteSession {
        id: "i".to_string(),
    }
    .statements();
    assert_eq!(deleting.len(), 2);
    assert!(deleting[0].sql.contains("messages"));
    assert!(deleting[1].sql.contains("sessions"));
}

#[test]
fn roles_keep_their_names() {
    assert!(Role::from_text("user").is_user());
    assert!(Role::from_text("assistant").is_assistant());
    assert_eq!(Role::from_text("system").to_text(), "system");
    let message = Message::new("hello".to_string(), Role::Assistant);
    assert_eq!(message.id, "");
    let stored = message.copy_with_id("m".to_string());
    let entity = stored.to_entity(&"s".to_string());
    assert_eq!(entity.role, "assistant");
    assert_eq!(Message::from_entity(&entity).content, "hello");
}

#[test]
fn a_session_row_that_is_not_current_is_not() {
    let row = SessionEntity::new("i".to_string(), "n".to_string(), at(1), 0, at(0));
    let session = Session::from_entity(&row);
    assert!(!session.current);
    assert!(!session.temporary);
    assert!(session.messages.is_empty());
}

fn column(name: &str, kind: &str) -> Column {
    Column {
        name: name.to_string(),
        kind: kind.to_string(),
    }
}

#[test]
fn a_step_adds_only_what_is_missing() {
    let old = vec![column("id", "integer"), column("content", "TEXT")];
    assert_eq!(Step::MessagesId.changes(&old, &vec![]).len(), 4);
    let new = vec![column("id", "TEXT"), column("role", "TEXT")];
    assert!(Step::MessagesId.changes(&new, &vec![]).is_empty());
    assert!(Step::MessagesRole.changes(&new, &vec![]).is_empty());
    let sql: Vec<String> = Step::MessagesTypes
        .changes(&new, &vec![])
        .iter()
        .map(|change| change.statement().sql)
        .collect();
    assert_eq!(
        sql,
        vec![
            "ALTER TABLE messages ADD COLUMN message_type TEXT NOT NULL DEFAULT 'standard'",
            "ALTER TABLE messages ADD COLUMN compaction_metadata TEXT",
        ]
    );
    let last_used = Step::SessionsLastUsed.changes(&vec![], &vec![]);
    assert_eq!(
        last_used[0].statement().sql,
        "ALTER TABLE sessions ADD COLUMN last_used_at TEXT"
    );
    assert_eq!(last_used.len(), 2);
    assert_eq!(Table::Sessions.info().sql, "PRAGMA table_info(sessions)");
}

#[test]
fn a_column_that_was_added_first_elsewhere_is_forgiven() {
    let error = "duplicate column name: sequence";
    assert!(is_duplicate_column(error));
    assert!(Step::MessagesSequence.forgives(0, error));
    assert!(!Step::MessagesSequence.forgives(1, error));
    assert!(!Step::MessagesRole.forgives(0, error));
    assert!(!Step::MessagesSequence.forgives(0, "database is locked"));
}

#[test]
fn shadowed_names_get_different_suffixes() {
    let sessions: Vec<(String, String)> = (0..21)
        .map(|i| (format!("s{i}"), "work".to_string()))
        .collect();
    let changes = Step::SessionsUniqueNames.changes(&vec![], &sessions);
    assert_eq!(changes.len(), 21);
    let suffixes: HashSet<String> = changes[..20]
        .iter()
        .map(|change| format!("{:?}", change.statement().params[0]))
        .collect();
    assert_eq!(suffixes.len(), 20);
    assert!(suffixes.contains("Text(\"-2\")"));
    assert!(suffixes.contains("Text(\"-21\")"));
}
