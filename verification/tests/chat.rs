//! The interactive chat: history, context, commands and turns.

use termai::chat::anchor_ui::{
    AnchorUi, PaletteItem, RawModeGuard, StatusInfo, TerminalChange,
};
use termai::chat::commands::{
    handle_theme_command, switched, themes_notice, ChatCommand, Effect,
};
use termai::chat::context::{create_contextual_input, missing_path, Files};
use termai::chat::history::{load_history_entries, save_history_entries};
use termai::chat::interactive::{
    display_unsent_messages, estimate_tokens, spinner_info, ExitStep, InteractiveSession, Mode,
    SaveStep,
};
use termai::chat::notice::Notice;
use termai::chat::provider::{ChatState, EffortRequest};
use termai::chat::turn::{
    after_save, after_write_ahead, anchored_ai_turn, anchored_input, begin_turn, edited, generate_ai_response, goodbye,
    handle_message, is_ctrl_c, latest_answer, next_queued, process_submission, run_anchored,
    submission, turn_edited, turn_input, write_ahead_notice, Edited, EditorEvent, Input,
    InputType, Key, KeyCode, LoopStep, SubmissionStep, TurnEffect, TurnInput, TurnOutcome,
    TurnStep,
};
use termai::session::model::{Role, Session};
use termai::session::tables::Write;
use termai::time::Timestamp;

fn chat() -> InteractiveSession {
    let mut session = Session::new_temporary("sid".to_string(), Timestamp::default());
    session.temporary = false;
    session.name = "work".to_string();
    InteractiveSession::new(
        session,
        vec![],
        ChatState {
            provider: "openai".to_string(),
            model: "m".to_string(),
            tools_enabled: false,
            reasoning_effort: None,
        },
    )
}

fn say(chat: &mut InteractiveSession, role: Role, text: &str) {
    chat.session.add_raw_message(text.to_string(), role);
}

fn ui() -> AnchorUi {
    AnchorUi::new(RawModeGuard::new())
}

fn item(text: &str) -> PaletteItem {
    PaletteItem {
        label: text.to_string(),
        completion: format!("/{text}"),
    }
}

fn file(path: &str, content: &str) -> Files {
    Files {
        path: path.to_string(),
        content: content.to_string(),
    }
}

fn words<T: std::fmt::Debug>(list: &Vec<T>) -> Vec<String> {
    list.iter().map(|one| format!("{one:?}")).collect()
}

fn key(code: KeyCode) -> Key {
    Key {
        code,
        control: false,
        released: false,
    }
}

// ---------------------------------------------------------------------
// History
// ---------------------------------------------------------------------

#[test]
fn history_is_merged_oldest_first_without_repeats() {
    let sources = vec![
        Some("# a comment\none\n\n  \ntwo\n".to_string()),
        None,
        Some("two\r\nthree\none\n".to_string()),
    ];
    assert_eq!(load_history_entries(&sources), vec!["one", "two", "three"]);
}

#[test]
fn history_loads_back_as_it_was_stored() {
    let history = vec!["one".to_string(), " two words".to_string()];
    let stored = save_history_entries(&history).expect("not empty");
    assert_eq!(stored, "one\n two words\n");
    assert_eq!(load_history_entries(&vec![None, Some(stored)]), history);
    assert_eq!(save_history_entries(&vec![]), None);
}

// ---------------------------------------------------------------------
// The input line
// ---------------------------------------------------------------------

#[test]
fn tab_goes_round_the_palette() {
    let mut ui = ui();
    let filtered = vec![item("save"), item("sessions"), item("settings")];
    let mut texts = Vec::new();
    for _ in 0..4 {
        texts.push(ui.cycle_palette(&filtered).expect("an entry"));
    }
    assert_eq!(texts, vec!["/save", "/sessions", "/settings", "/save"]);
    // The entries stay pinned, whatever the buffer matches now.
    assert_eq!(ui.palette_items(&vec![]).len(), 3);
    ui.on_buffer_change();
    assert!(ui.palette_items(&vec![]).is_empty());
    assert_eq!(ui.cycle_palette(&vec![]), None);
}

#[test]
fn the_painted_state_is_what_the_line_holds() {
    let mut ui = ui();
    ui.queued.push_back("later".to_string());
    ui.palette_index = 9;
    let status = StatusInfo {
        model: "m".to_string(),
        session: "s".to_string(),
        token_estimate: 3,
        tools_enabled: true,
        effort: None,
    };
    let filtered = vec![item("a"), item("b")];
    let state = ui.build_state("in", 2, &filtered, &status, None);
    assert_eq!(state.input, "in");
    assert_eq!(state.cursor, 2);
    assert_eq!(state.queued, 1);
    assert_eq!(state.palette_selected, 1);
    assert_eq!(state.status.model, "m");
    ui.hide_palette();
    let state = ui.build_state("in", 2, &filtered, &status, None);
    assert!(state.palette.is_empty());
    assert_eq!(state.palette_selected, 0);
}

#[test]
fn the_terminal_is_switched_only_when_it_has_to_be() {
    let mut ui = ui();
    assert_eq!(ui.begin_suspended(), Some(TerminalChange::ToCooked));
    assert_eq!(ui.begin_suspended(), None);
    assert_eq!(ui.end_suspended(), Some(TerminalChange::ToRaw));
    assert_eq!(ui.end_suspended(), None);
}

#[test]
fn the_second_ctrl_c_leaves() {
    let mut chat = chat();
    let mut ui = ui();
    let ctrl_c = Key {
        code: KeyCode::Char('c'),
        control: true,
        released: false,
    };
    assert!(is_ctrl_c(&ctrl_c));
    assert!(!is_ctrl_c(&key(KeyCode::Char('c'))));
    let first = edited(&mut chat, &mut ui, &vec![], &ctrl_c, &EditorEvent::Cancel);
    assert!(matches!(first, Edited::Warn(Notice::Warning(_))));
    assert!(!chat.should_exit);
    let second = edited(&mut chat, &mut ui, &vec![], &ctrl_c, &EditorEvent::Cancel);
    assert!(matches!(second, Edited::Stay));
    assert!(chat.should_exit);
}

#[test]
fn escape_closes_the_palette_before_anything_else() {
    let mut chat = chat();
    let mut ui = ui();
    let filtered = vec![item("a")];
    edited(
        &mut chat,
        &mut ui,
        &filtered,
        &key(KeyCode::Other),
        &EditorEvent::Cancel,
    );
    assert!(ui.palette_hidden);
    assert!(!ui.ctrl_c_armed);
    edited(
        &mut chat,
        &mut ui,
        &filtered,
        &key(KeyCode::Other),
        &EditorEvent::Redraw,
    );
    assert!(!ui.palette_hidden);
    edited(
        &mut chat,
        &mut ui,
        &filtered,
        &key(KeyCode::Other),
        &EditorEvent::Exit,
    );
    assert!(chat.should_exit);
}

#[test]
fn inputs_between_turns_are_told_apart() {
    let mut chat = chat();
    let mut ui = ui();
    let mut step = |input: Input| anchored_input(&mut chat, &mut ui, &input);
    assert!(matches!(step(Input::Key(key(KeyCode::Tab))), LoopStep::CyclePalette));
    assert!(matches!(step(Input::Key(key(KeyCode::Char('a')))), LoopStep::Edit));
    assert!(matches!(
        step(Input::Key(Key { code: KeyCode::Tab, control: false, released: true })),
        LoopStep::Stay
    ));
    assert!(matches!(
        step(Input::Paste("x".to_string())),
        LoopStep::Insert(text) if text == "x"
    ));
    assert!(matches!(step(Input::Resize), LoopStep::Stay));
    assert!(matches!(step(Input::Other), LoopStep::Stay));
    assert!(matches!(step(Input::Closed), LoopStep::Leave));
    assert!(matches!(step(Input::Shutdown), LoopStep::Leave));
    assert!(chat.should_exit);
}

// ---------------------------------------------------------------------
// Sessions
// ---------------------------------------------------------------------

#[test]
fn a_blank_opening_is_dropped() {
    let chat = chat().with_initial_input(Some("  \n".to_string()));
    assert_eq!(chat.initial_input, None);
    let mut chat = chat.with_initial_input(Some(" hello ".to_string()));
    assert_eq!(chat.take_initial_input().as_deref(), Some(" hello "));
    assert_eq!(chat.take_initial_input(), None);
}

#[test]
fn only_a_terminal_on_both_ends_is_anchored() {
    assert_eq!(InteractiveSession::run(true, true), Mode::Anchored);
    assert_eq!(InteractiveSession::run(true, false), Mode::Plain);
    assert_eq!(InteractiveSession::run(false, true), Mode::Plain);
    assert_eq!(
        InteractiveSession::process_input("  hi ").as_deref(),
        Some("hi")
    );
    assert_eq!(InteractiveSession::process_input(" \t"), None);
}

#[test]
fn an_automatic_name_gives_way_to_the_first_prompt() {
    let now = Timestamp {
        seconds: 1_704_103_200,
        nanos: 0,
    };
    let mut chat = chat();
    say(&mut chat, Role::Assistant, "welcome");
    say(&mut chat, Role::User, "Fix the Login page!");
    assert_eq!(chat.name_session_after_first_prompt(now), None);
    chat.session.name = "chat-1".to_string();
    let name = chat.name_session_after_first_prompt(now).expect("a name");
    assert_eq!(name, "20240101-fix-the-login-page");
    chat.session.name = name;
    assert_eq!(chat.name_session_after_first_prompt(now), None);
    chat.session.name = "temporary".to_string();
    chat.session.messages[1].content = "???".to_string();
    assert_eq!(chat.name_session_after_first_prompt(now), None);
}

/// A rename would write the session, and nothing of a temporary one is.
#[test]
fn a_temporary_session_is_not_named_after_its_prompt() {
    let now = Timestamp {
        seconds: 1_704_103_200,
        nanos: 0,
    };
    let mut chat = chat();
    chat.session = Session::new_temporary("sid".to_string(), now);
    say(&mut chat, Role::User, "Fix the Login page!");
    assert_eq!(chat.session.name, "temporary");
    assert_eq!(chat.name_session_after_first_prompt(now), None);
    chat.session.temporary = false;
    assert_eq!(
        chat.name_session_after_first_prompt(now).as_deref(),
        Some("20240101-fix-the-login-page")
    );
}

/// What comes back is the line that was typed, without the files.
#[test]
fn a_failed_prompt_comes_back_without_its_files() {
    let mut chat = chat();
    say(&mut chat, Role::User, "earlier");
    say(&mut chat, Role::Assistant, "answer");
    chat.context_files = vec![file("a.rs", "fn a\n")];
    say(&mut chat, Role::User, "q");
    chat.fold_context("q");
    assert_ne!(chat.session.messages[2].content, "q");
    let effects = anchored_ai_turn(&mut chat, "q", &TurnOutcome::Done(Err("x".to_string())));
    assert!(matches!(&effects[1], TurnEffect::OfferBack(Some(text)) if text == "q"));
    let left: Vec<&str> = chat
        .session
        .messages
        .iter()
        .map(|m| m.content.as_str())
        .collect();
    assert_eq!(left, vec!["earlier", "answer"]);
}

#[test]
fn the_status_line_estimates_tokens() {
    let mut chat = chat();
    say(&mut chat, Role::User, "12345678é");
    say(&mut chat, Role::Assistant, "1234");
    assert_eq!(estimate_tokens(&chat.session), 3);
    let status = chat.status_info(Some("low".to_string()));
    assert_eq!(status.session, "work");
    assert_eq!(status.token_estimate, 3);
    assert_eq!(status.effort.as_deref(), Some("low"));
    chat.chat_state.reasoning_effort = Some("high".to_string());
    assert_eq!(
        chat.status_info(Some("low".to_string())).effort.as_deref(),
        Some("high")
    );
}

#[test]
fn the_spinner_turns_ten_times_a_second() {
    let spinner = spinner_info(1250, 10, None);
    assert_eq!(spinner.frame, 2);
    assert_eq!(spinner.elapsed_millis, 1250);
    assert_eq!(spinner.label, "thinking");
    let spinner = spinner_info(99, 10, Some(("search".to_string(), 7)));
    assert_eq!(spinner.frame, 0);
    assert_eq!(spinner.elapsed_millis, 7);
    assert_eq!(spinner.label, "🌐 search");
}

#[test]
fn saving_is_claimed_only_when_it_is_found() {
    let mut chat = chat();
    assert_eq!(chat.save_on_exit(), ExitStep::DiscardIfEmpty);
    say(&mut chat, Role::User, "q");
    assert_eq!(chat.save_on_exit(), ExitStep::Save);
    assert_eq!(
        format!("{:?}", chat.exit_notice(&Ok(2))),
        "Success(\"Saved 2 messages to 'work' — resume with: termai chat --session work\")"
    );
    assert_eq!(
        format!("{:?}", chat.exit_notice(&Ok(0))),
        "Error(\"Nothing reached the database — this conversation was NOT saved.\")"
    );
    assert_eq!(
        format!("{:?}", chat.exit_notice(&Err("x".to_string()))),
        "Error(\"Could not verify the save: x\")"
    );
    assert_eq!(
        words(&chat.save_notices(0)),
        vec!["Error(\"Nothing was written to the database — this session was NOT saved.\")"]
    );
    assert_eq!(
        words(&chat.save_notices(2)),
        vec![
            "Saved(\"work\")",
            "Success(\"2 messages stored — resume with: termai chat --session work\")"
        ]
    );
    chat.session.temporary = true;
    assert_eq!(chat.save_on_exit(), ExitStep::WarnTemporary);
    assert!(matches!(
        InteractiveSession::temporary_notice(),
        Notice::Warning(_)
    ));
}

#[test]
fn saving_keeps_a_temporary_chat_unless_the_name_is_refused() {
    let mut chat = chat();
    chat.session.temporary = true;
    let (was, step) = chat.save_session_as(&Some(" new ".to_string()));
    assert!(was);
    assert!(matches!(step, SaveStep::Rename(name) if name == "new"));
    assert!(!chat.session.temporary);
    let notice = chat.save_refused(was, "taken");
    assert!(matches!(notice, Notice::Error(text) if text == "taken"));
    assert!(chat.session.temporary);
    let (_, step) = chat.save_session_as(&Some("  ".to_string()));
    assert!(matches!(step, SaveStep::NameAfterPrompt));
    let (_, step) = chat.save_session_as(&None);
    assert!(matches!(step, SaveStep::NameAfterPrompt));
}

#[test]
fn unsent_prompts_are_shown_one_by_one() {
    assert_eq!(
        words(&display_unsent_messages(&vec![])),
        vec!["Success(\"No unsent messages — everything you typed got a reply.\")"]
    );
    assert_eq!(
        words(&display_unsent_messages(&vec!["a".to_string(), "b".to_string()])),
        vec![
            "Warning(\"2 message(s) never got a reply:\")",
            "Text(\"\\na\\n\")",
            "Text(\"\\nb\\n\")"
        ]
    );
}

// ---------------------------------------------------------------------
// Context
// ---------------------------------------------------------------------

#[test]
fn files_are_sent_along_behind_the_prompt() {
    assert_eq!(create_contextual_input(&vec![], "q"), "q");
    let files = vec![file("a.rs", "fn a\n"), file("b.rs", "fn b\n")];
    assert_eq!(
        create_contextual_input(&files, "q"),
        "q\na.rs\n```\nfn a\n```\nb.rs\n```\nfn b\n```"
    );
    let mut chat = chat();
    chat.context_files = files;
    say(&mut chat, Role::User, "q");
    chat.fold_context("q");
    assert!(chat.session.messages[0].content.starts_with("q\na.rs"));
    say(&mut chat, Role::Assistant, "a");
    chat.fold_context("a");
    assert_eq!(chat.session.messages[1].content, "a");
}

#[test]
fn a_path_is_in_the_context_once() {
    let mut chat = chat();
    let found = vec![file("a", "1"), file("a", "2"), file("b", "3")];
    let effects = chat.add_context_path("dir", &found);
    let paths: Vec<&str> = chat.context_files.iter().map(|f| f.path.as_str()).collect();
    assert_eq!(paths, vec!["a", "b"]);
    assert_eq!(chat.context_files[0].content, "1");
    assert_eq!(
        words(&effects),
        vec![
            "Say(Success(\"Added 'dir' to context\"))",
            "ShowContext([\"a\", \"b\"])"
        ]
    );
    chat.add_context_path("dir", &found);
    assert_eq!(chat.context_files.len(), 2);
    assert_eq!(missing_path("x"), "Path does not exist: x");
}

#[test]
fn removing_takes_every_path_that_matches() {
    let mut chat = chat();
    chat.context_files = vec![file("src/a", ""), file("doc/a", ""), file("src/b", "")];
    let removed = chat.handle_command(&ChatCommand::RemoveContext("src/".to_string()));
    assert_eq!(
        words(&removed),
        vec![
            "Say(Success(\"Removed files matching 'src/' from context\"))",
            "ShowContext([\"doc/a\"])"
        ]
    );
    let none = chat.handle_command(&ChatCommand::RemoveContext("src/".to_string()));
    assert_eq!(
        words(&none),
        vec!["Say(Warning(\"No files matching 'src/' found in context\"))"]
    );
    assert_eq!(chat.context_files.len(), 1);
}

// ---------------------------------------------------------------------
// Commands
// ---------------------------------------------------------------------

#[test]
fn clearing_drops_the_conversation_and_its_drafts() {
    let mut chat = chat();
    say(&mut chat, Role::User, "q");
    let effects = chat.handle_command(&ChatCommand::Clear);
    assert!(chat.session.messages.is_empty());
    assert_eq!(effects.len(), 4);
    assert!(matches!(
        &effects[0],
        Effect::Discard(Write::DiscardPending { session_id }) if session_id == "sid"
    ));
    assert!(matches!(effects[1], Effect::ClearScreen));
    assert!(matches!(effects[2], Effect::ShowWelcome));
    assert!(matches!(effects[3], Effect::Say(Notice::Cleared)));
    chat.session.temporary = true;
    assert_eq!(chat.handle_command(&ChatCommand::Clear).len(), 3);
}

#[test]
fn a_retry_takes_the_last_answer_back() {
    let mut chat = chat();
    assert_eq!(
        words(&chat.handle_command(&ChatCommand::Retry)),
        vec!["Say(Warning(\"No previous message to retry\"))"]
    );
    say(&mut chat, Role::User, "q");
    assert_eq!(
        words(&chat.handle_command(&ChatCommand::Retry)),
        vec!["Say(Warning(\"No AI response to retry\"))"]
    );
    say(&mut chat, Role::Assistant, "a");
    assert_eq!(
        words(&chat.handle_command(&ChatCommand::Retry)),
        vec!["Ask(\"q\")"]
    );
    assert_eq!(chat.session.messages.len(), 1);
    chat.session.messages.clear();
    say(&mut chat, Role::Assistant, "a");
    assert!(chat.handle_command(&ChatCommand::Retry).is_empty());
    assert!(chat.session.messages.is_empty());
}

#[test]
fn commands_come_to_what_they_say() {
    let mut chat = chat();
    let mut run = |command: ChatCommand| words(&chat.handle_command(&command));
    assert_eq!(run(ChatCommand::Help), vec!["ShowHelp"]);
    assert_eq!(run(ChatCommand::Commands), vec!["ShowPalette"]);
    assert_eq!(run(ChatCommand::Save(None)), vec!["SaveAs(None)"]);
    assert_eq!(run(ChatCommand::Sessions), vec!["ListSessions(10)"]);
    assert_eq!(run(ChatCommand::Unsent), vec!["ShowUnsent"]);
    assert_eq!(run(ChatCommand::Context), vec!["ShowContext([])"]);
    assert_eq!(
        run(ChatCommand::AddContext("p".to_string())),
        vec!["AddContext(\"p\")"]
    );
    assert_eq!(
        run(ChatCommand::Model(None)),
        vec!["ShowStatus", "Print(\"\")", "ShowModels"]
    );
    assert_eq!(
        run(ChatCommand::Model(Some("x".to_string()))),
        vec!["SwitchModel(\"x\")"]
    );
    assert_eq!(run(ChatCommand::Provider(None)), vec!["ShowStatus"]);
    assert_eq!(
        run(ChatCommand::Provider(Some("x".to_string()))),
        vec!["SwitchProvider(\"x\")"]
    );
    assert_eq!(run(ChatCommand::Status), vec!["ShowStatus"]);
    assert_eq!(run(ChatCommand::Theme(None)), vec!["ListThemes"]);
    assert_eq!(
        run(ChatCommand::Theme(Some("x".to_string()))),
        vec!["SetTheme(\"x\")"]
    );
    assert_eq!(
        run(ChatCommand::Streaming(Some(true))),
        vec!["SetStreaming(true)", "Say(Success(\"Streaming output enabled\"))"]
    );
    assert!(run(ChatCommand::Streaming(None))[0].starts_with("Say(Text(\"Usage: /streaming on"));
    assert_eq!(
        run(ChatCommand::Settings),
        vec!["ShowSettings(Settings { provider: \"openai\", model: \"m\", tools_enabled: false, streaming: true, context_files: 0, session: \"work\" })"]
    );
    assert!(run(ChatCommand::Tools(Some(true)))[0].contains("Tools are now enabled"));
    let effort = chat.handle_command(&ChatCommand::Effort(Some("LOW".to_string())));
    assert!(matches!(
        &effort[0],
        Effect::SetEffort(EffortRequest::Parse(value)) if value == "low"
    ));
    assert!(chat.chat_state.tools_enabled);
    assert!(!chat.should_exit);
    assert!(chat.handle_command(&ChatCommand::Exit).is_empty());
    assert!(chat.should_exit);
}

#[test]
fn branching_points_at_the_command_that_works() {
    let mut chat = chat();
    say(&mut chat, Role::User, "q");
    let effects = words(&chat.handle_command(&ChatCommand::Branch(Some("x".to_string()))));
    assert_eq!(effects.len(), 6);
    assert!(effects[0].contains("termai sessions branch work --name x"));
    assert_eq!(
        effects[2],
        "Print(\"     • 1 messages from current conversation\")"
    );
}

#[test]
fn themes_and_switches_are_reported() {
    let themes = vec!["dark".to_string(), "light".to_string()];
    assert_eq!(
        words(&handle_theme_command("dark", &None, &themes)),
        vec!["Success(\"Switched to 'dark' theme\")"]
    );
    assert_eq!(
        words(&handle_theme_command("x", &Some("no".to_string()), &themes)),
        vec!["Error(\"no\")", "Text(\"Available themes: dark, light\")"]
    );
    assert_eq!(
        format!("{:?}", themes_notice(&themes)),
        "Text(\"Available themes: dark, light\\nUse '/theme <name>' to switch\")"
    );
    assert!(switched(&Ok("done".to_string())).1);
    assert!(!switched(&Err("no".to_string())).1);
}

// ---------------------------------------------------------------------
// Turns
// ---------------------------------------------------------------------

#[test]
fn a_submission_is_trimmed_and_echoed() {
    assert!(submission(" \n").is_none());
    let line = submission(" hi ").expect("a line");
    assert_eq!(line.text, "hi");
    assert_eq!(line.echo, "\x1b[1;32m  you ›\x1b[0m hi");
}

#[test]
fn a_message_joins_the_conversation_before_it_is_answered() {
    let mut chat = chat();
    let step = process_submission(&mut chat, &InputType::Message("q".to_string()));
    assert!(matches!(step, SubmissionStep::Ask(text) if text == "q"));
    assert_eq!(chat.session.messages.len(), 1);
    assert!(chat.session.messages[0].role.is_user());
    let step = process_submission(&mut chat, &InputType::Command(ChatCommand::Retry));
    assert!(matches!(step, SubmissionStep::Warn(_)));
    say(&mut chat, Role::Assistant, "a");
    let step = process_submission(&mut chat, &InputType::Command(ChatCommand::Retry));
    assert!(matches!(step, SubmissionStep::Ask(text) if text == "q"));
    assert_eq!(chat.session.messages.len(), 1);
    let step = process_submission(&mut chat, &InputType::Command(ChatCommand::Help));
    assert!(matches!(step, SubmissionStep::Handle));
    handle_message(&mut chat, &"again".to_string());
    assert_eq!(chat.session.messages.len(), 2);
}

#[test]
fn what_is_typed_during_a_turn_is_queued() {
    let mut chat = chat();
    let mut ui = ui();
    for text in [" one ", "  ", "two"] {
        let step = turn_edited(&mut chat, &mut ui, &EditorEvent::Submit(text.to_string()));
        assert!(matches!(step, TurnStep::Stay));
    }
    assert!(matches!(
        turn_edited(&mut chat, &mut ui, &EditorEvent::Redraw),
        TurnStep::Draw
    ));
    assert_eq!(next_queued(&chat, &mut ui).as_deref(), Some("one"));
    chat.should_exit = true;
    assert_eq!(next_queued(&chat, &mut ui), None);
    chat.should_exit = false;
    assert_eq!(next_queued(&chat, &mut ui).as_deref(), Some("two"));
    assert_eq!(next_queued(&chat, &mut ui), None);
}

#[test]
fn a_turn_can_be_cancelled_and_cut_off() {
    let mut chat = chat();
    let mut ui = ui();
    assert!(matches!(
        turn_edited(&mut chat, &mut ui, &EditorEvent::Cancel),
        TurnStep::End(TurnOutcome::Cancelled)
    ));
    assert!(!chat.should_exit);
    assert!(matches!(
        turn_edited(&mut chat, &mut ui, &EditorEvent::Exit),
        TurnStep::End(TurnOutcome::Cancelled)
    ));
    assert!(chat.should_exit);
    assert!(matches!(
        turn_input(&TurnInput::Closed),
        TurnStep::End(TurnOutcome::InputClosed)
    ));
    assert!(matches!(
        turn_input(&TurnInput::Shutdown),
        TurnStep::End(TurnOutcome::InputClosed)
    ));
    assert!(matches!(turn_input(&TurnInput::Tick), TurnStep::Draw));
    assert!(matches!(
        turn_input(&TurnInput::Key(key(KeyCode::Tab))),
        TurnStep::Edit
    ));
    assert!(matches!(
        turn_input(&TurnInput::Finished(Err("x".to_string()))),
        TurnStep::End(TurnOutcome::Done(Err(error))) if error == "x"
    ));
    assert!(matches!(
        turn_input(&TurnInput::Paste("p".to_string())),
        TurnStep::Insert(text) if text == "p"
    ));
    assert!(matches!(turn_input(&TurnInput::Other), TurnStep::Stay));
}

#[test]
fn an_answer_is_stored_before_it_is_painted() {
    let mut chat = chat();
    say(&mut chat, Role::User, "q");
    assert_eq!(words(&begin_turn()), vec!["WriteAhead", "Redact", "Call"]);
    say(&mut chat, Role::Assistant, "a");
    assert_eq!(
        words(&anchored_ai_turn(&mut chat, "q", &TurnOutcome::Done(Ok(())))),
        vec![
            "Unredact",
            "Persist",
            "NameSession",
            "Suspend",
            "Paint",
            "Resume",
            "Unredact"
        ]
    );
    assert_eq!(
        words(&generate_ai_response(&mut chat, &Ok(()))),
        vec!["Unredact", "Persist", "NameSession", "Paint", "Unredact"]
    );
    assert_eq!(latest_answer(&chat).as_deref(), Some("a"));
    assert_eq!(chat.session.messages.len(), 2);
}

#[test]
fn a_failed_save_ends_the_turn() {
    let mut chat = chat();
    say(&mut chat, Role::User, "q");
    say(&mut chat, Role::Assistant, "a");
    let mut steps = anchored_ai_turn(&mut chat, "q", &TurnOutcome::Done(Ok(())));
    assert!(matches!(steps.remove(0), TurnEffect::Unredact));
    assert!(matches!(steps.remove(0), TurnEffect::Persist));
    assert_eq!(
        after_save(Err("disk full".to_string()), steps).err().as_deref(),
        Some("disk full")
    );
    let rest = after_save(Ok(()), vec![TurnEffect::NameSession, TurnEffect::Paint]);
    assert_eq!(words(&rest.expect("the rest")), vec!["NameSession", "Paint"]);
}

#[test]
fn a_prompt_that_is_not_stored_is_sent_all_the_same() {
    let mut steps = begin_turn();
    assert!(matches!(steps.remove(0), TurnEffect::WriteAhead));
    let (told, rest) = after_write_ahead(Err("disk full".to_string()), steps);
    assert!(matches!(
        told,
        Some(Notice::Error(text)) if text == "Could not save your message: disk full"
    ));
    assert_eq!(words(&rest), vec!["Redact", "Call"]);
    let (told, rest) = after_write_ahead(Ok(()), rest);
    assert!(told.is_none());
    assert_eq!(rest.len(), 2);
}

#[test]
fn a_failed_prompt_is_handed_back() {
    let mut chat = chat();
    say(&mut chat, Role::User, "q");
    let effects = anchored_ai_turn(&mut chat, "q", &TurnOutcome::Done(Err("x".to_string())));
    assert_eq!(
        words(&effects),
        vec![
            "Tell(Error(\"AI Error: x\"))",
            "OfferBack(Some(\"q\"))",
            "Unredact"
        ]
    );
    assert!(chat.session.messages.is_empty());
    say(&mut chat, Role::User, "q");
    let effects = anchored_ai_turn(&mut chat, "q", &TurnOutcome::Cancelled);
    assert!(matches!(&effects[1], TurnEffect::OfferBack(Some(text)) if text == "q"));
    assert_eq!(latest_answer(&chat), None);
    // Without a prompt at the end nothing is offered.
    say(&mut chat, Role::Assistant, "a");
    let effects = anchored_ai_turn(&mut chat, "q", &TurnOutcome::Cancelled);
    assert!(matches!(&effects[1], TurnEffect::OfferBack(None)));
    assert_eq!(chat.session.messages.len(), 1);

    let mut ui = ui();
    ui.ctrl_c_armed = true;
    let offer = InteractiveSession::offer_unsent_back(&mut ui, " ", Some("q".to_string()))
        .expect("an offer");
    assert_eq!(offer.input.as_deref(), Some("q"));
    assert!(!ui.ctrl_c_armed);
    let offer = InteractiveSession::offer_unsent_back(&mut ui, "typing", Some("q".to_string()))
        .expect("an offer");
    assert_eq!(offer.input, None);
    assert!(offer.line.contains("/unsent"));
    assert!(InteractiveSession::offer_unsent_back(&mut ui, "", None).is_none());
}

#[test]
fn a_failed_plain_turn_keeps_the_prompt_for_later() {
    let mut chat = chat();
    say(&mut chat, Role::User, "q");
    assert_eq!(
        words(&generate_ai_response(&mut chat, &Err("x".to_string()))),
        vec![
            "Tell(Error(\"AI Error: x\"))",
            "Tell(Warning(\"Your message was saved — recover it with /unsent\"))",
            "Unredact"
        ]
    );
    assert_eq!(
        words(&generate_ai_response(&mut chat, &Err("x".to_string()))),
        vec!["Tell(Error(\"AI Error: x\"))", "Unredact"]
    );
    assert!(matches!(
        write_ahead_notice("x"),
        Notice::Error(text) if text == "Could not save your message: x"
    ));
}

#[test]
fn a_closed_terminal_ends_the_chat() {
    let mut chat = chat();
    say(&mut chat, Role::User, "q");
    let effects = anchored_ai_turn(&mut chat, "q", &TurnOutcome::InputClosed);
    assert_eq!(words(&effects), vec!["Unredact"]);
    assert!(chat.should_exit);
    assert_eq!(chat.session.messages.len(), 1);
}

#[test]
fn the_error_of_the_loop_is_reported_after_the_save() {
    assert_eq!(run_anchored(Ok(()), Ok(())), Ok(()));
    assert_eq!(
        run_anchored(Err("loop".to_string()), Err("save".to_string())),
        Err("loop".to_string())
    );
    assert_eq!(
        run_anchored(Ok(()), Err("save".to_string())),
        Err("save".to_string())
    );
    assert!(matches!(goodbye(), Notice::Success(_)));
}
