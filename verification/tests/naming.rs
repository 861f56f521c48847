use termai::chat::naming::{is_auto_name, slugify};

#[test]
fn generated_names_are_recognised() {
    assert!(is_auto_name("temporary"));
    assert!(is_auto_name("chat-20260101"));
    assert!(is_auto_name("chat_20260101"));
    assert!(is_auto_name("auto_save_1"));
    assert!(!is_auto_name("chatter"));
    assert!(!is_auto_name("work"));
}

#[test]
fn a_slug_is_six_words_of_ascii_letters_and_digits() {
    assert_eq!(
        slugify("How do I fix the FOO bar baz?").as_deref(),
        Some("how-do-i-fix-the-foo")
    );
    assert_eq!(slugify("  --é!  ").as_deref(), None);
    assert_eq!(slugify("a1_B2").as_deref(), Some("a1-b2"));
    // However many characters stand between two words, one hyphen does.
    assert_eq!(slugify("a -- (b) é c!").as_deref(), Some("a-b-c"));
}

#[test]
fn a_slug_is_cut_after_48_characters() {
    let prompt = "abcdefghijklmnopqrstuvwxyz abcdefghijklmnopqrstuvwxyz";
    assert_eq!(
        slugify(prompt).as_deref(),
        Some("abcdefghijklmnopqrstuvwxyz-abcdefghijklmnopqrstu")
    );
}
