//! One turn of the chat, and the loop around it: what each event leads to.
//!
//! Reading keys, drawing, and calling the provider happen elsewhere; here is
//! what they are followed by.

use crate::chat::anchor_ui::{AnchorUi, PaletteItem};
use crate::chat::commands::ChatCommand;
use crate::chat::interactive::{InteractiveSession, Mode};
#[allow(unused_imports)]
use crate::chat::interactive::{ends_in_answer, ends_in_prompt};
use crate::chat::notice::Notice;
#[allow(unused_imports)]
use crate::chat::notice::Told;
use crate::session::model::Role;
#[allow(unused_imports)]
use crate::session::model::{Message, Session, STANDARD};
use crate::text::{concat, trim};
#[allow(unused_imports)]
use crate::text::trimmed;
use vstd::prelude::*;

verus! {

// ---------------------------------------------------------------------
// Keys
// ---------------------------------------------------------------------

/// Which key it is, as far as the chat tells keys apart.
#[derive(Debug, Clone, Copy, PartialEq, Eq, Structural)]
pub enum KeyCode {
    Char(char),
    Tab,
    Other,
}

/// A key event.
#[derive(Debug, Clone, Copy, PartialEq, Eq, Structural)]
pub struct Key {
    pub code: KeyCode,
    pub control: bool,
    pub released: bool,
}

pub fn is_ctrl_c(key: &Key) -> (r: bool)
    ensures
        r == (key.code == KeyCode::Char('c') && key.control),
{
    key.code == KeyCode::Char('c') && key.control
}

/// What the line editor made of a key.
#[derive(Debug)]
pub enum EditorEvent {
    Submit(String),
    Cancel,
    Exit,
    Redraw,
    Nothing,
}

// ---------------------------------------------------------------------
// Between turns
// ---------------------------------------------------------------------

/// Something that happens while the chat waits for input.
#[derive(Debug)]
pub enum Input {
    Key(Key),
    Paste(String),
    Resize,
    Other,
    /// The terminal gives no more events.
    Closed,
    /// The program was told to end.
    Shutdown,
}

/// What an input is followed by.
#[derive(Debug)]
pub enum LoopStep {
    /// Leave the loop.
    Leave,
    /// Wait for the next input.
    Stay,
    /// Complete the input line to the next palette entry.
    CyclePalette,
    /// Hand the key to the line editor.
    Edit,
    /// Put this text into the line editor.
    Insert(String),
}

/// The chat after it was told to leave.
pub open spec fn leaving(chat: InteractiveSession) -> InteractiveSession {
    InteractiveSession { should_exit: true, ..chat }
}

/// The palette and Ctrl+C after the buffer changed.
pub open spec fn unpinned(ui: AnchorUi) -> AnchorUi {
    AnchorUi {
        palette_pin: None,
        palette_index: 0,
        palette_hidden: false,
        ctrl_c_armed: false,
        ..ui
    }
}

/// What an input between turns is followed by.
pub fn anchored_input(chat: &mut InteractiveSession, ui: &mut AnchorUi, input: &Input) -> (r:
    LoopStep)
    requires
        old(ui).wf(),
    ensures
        final(ui).wf(),
        *final(chat) == (if *input is Shutdown {
            leaving(*old(chat))
        } else {
            *old(chat)
        }),
        *final(ui) == (if *input is Paste {
            unpinned(*old(ui))
        } else {
            *old(ui)
        }),
        match *input {
            Input::Key(key) => if key.released {
                r is Stay
            } else if key.code is Tab {
                r is CyclePalette
            } else {
                r is Edit
            },
            Input::Paste(text) => r matches LoopStep::Insert(t) && t == text,
            Input::Resize | Input::Other => r is Stay,
            Input::Closed | Input::Shutdown => r is Leave,
        },
{
    match input {
        Input::Key(key) => if key.released {
            LoopStep::Stay
        } else {
            match key.code {
                KeyCode::Tab => LoopStep::CyclePalette,
                _ => LoopStep::Edit,
            }
        },
        Input::Paste(text) => {
            ui.on_buffer_change();
            LoopStep::Insert(text.clone())
        },
        Input::Resize | Input::Other => LoopStep::Stay,
        Input::Closed => LoopStep::Leave,
        Input::Shutdown => {
            chat.should_exit = true;
            LoopStep::Leave
        },
    }
}

/// What an edit is followed by.
#[derive(Debug)]
pub enum Edited {
    /// Process this line, and then what was queued meanwhile.
    Submit(String),
    /// Print this above the input line.
    Warn(Notice),
    Stay,
}

/// What the line editor's verdict on a key between turns is followed by.
/// `filtered` are the palette entries that match the buffer.
pub fn edited(
    chat: &mut InteractiveSession,
    ui: &mut AnchorUi,
    filtered: &Vec<PaletteItem>,
    key: &Key,
    event: &EditorEvent,
) -> (r: Edited)
    requires
        old(ui).wf(),
    ensures
        final(ui).wf(),
        match *event {
            EditorEvent::Submit(text) => {
                &&& r matches Edited::Submit(t) && t == text
                &&& *final(ui) == unpinned(*old(ui))
                &&& *final(chat) == *old(chat)
            },
            EditorEvent::Cancel => if old(ui).shown(filtered@).len() > 0 {
                &&& r is Stay
                &&& *final(ui) == (AnchorUi {
                    palette_hidden: true,
                    palette_pin: None,
                    ..*old(ui)
                })
                &&& *final(chat) == *old(chat)
            } else if key.code == KeyCode::Char('c') && key.control {
                if old(ui).ctrl_c_armed {
                    &&& r is Stay
                    &&& *final(ui) == *old(ui)
                    &&& *final(chat) == leaving(*old(chat))
                } else {
                    &&& r matches Edited::Warn(n) && n@ == Told::Warning(
                        "Press Ctrl+C again to exit, or type /exit to quit gracefully"@,
                    )
                    &&& *final(ui) == (AnchorUi { ctrl_c_armed: true, ..*old(ui) })
                    &&& *final(chat) == *old(chat)
                }
            } else {
                r is Stay && *final(ui) == *old(ui) && *final(chat) == *old(chat)
            },
            EditorEvent::Exit => r is Stay && *final(ui) == *old(ui) && *final(chat) == leaving(
                *old(chat),
            ),
            EditorEvent::Redraw => r is Stay && *final(ui) == unpinned(*old(ui)) && *final(chat)
                == *old(chat),
            EditorEvent::Nothing => r is Stay && *final(ui) == *old(ui) && *final(chat) == *old(
                chat,
            ),
        },
{
    match event {
        EditorEvent::Submit(text) => {
            ui.on_buffer_change();
            Edited::Submit(text.clone())
        },
        EditorEvent::Cancel => {
            let shown = ui.palette_items(filtered);
            if shown.len() > 0 {
                ui.hide_palette();
                Edited::Stay
            } else if is_ctrl_c(key) {
                if ui.ctrl_c_armed {
                    chat.should_exit = true;
                    Edited::Stay
                } else {
                    ui.ctrl_c_armed = true;
                    Edited::Warn(
                        Notice::Warning(
                            "Press Ctrl+C again to exit, or type /exit to quit gracefully".to_owned(),
                        ),
                    )
                }
            } else {
                Edited::Stay
            }
        },
        EditorEvent::Exit => {
            chat.should_exit = true;
            Edited::Stay
        },
        EditorEvent::Redraw => {
            ui.on_buffer_change();
            Edited::Stay
        },
        EditorEvent::Nothing => Edited::Stay,
    }
}

/// The next message that was submitted while a response was awaited, oldest
/// first; none once the chat is to end.
pub fn next_queued(chat: &InteractiveSession, ui: &mut AnchorUi) -> (r: Option<String>)
    requires
        old(ui).wf(),
    ensures
        final(ui).wf(),
        if chat.should_exit || old(ui).queued@.len() == 0 {
            r is None && *final(ui) == *old(ui)
        } else {
            &&& r == Some(old(ui).queued@[0])
            &&& final(ui).queued@ == old(ui).queued@.skip(1)
            &&& *final(ui) == (AnchorUi { queued: final(ui).queued, ..*old(ui) })
        },
{
    if chat.should_exit || ui.queued.len() == 0 {
        None
    } else {
        let r = ui.queued.pop_front();
        assert(ui.queued@ =~= old(ui).queued@.skip(1));
        r
    }
}

// ---------------------------------------------------------------------
// Submissions
// ---------------------------------------------------------------------

/// A line that was submitted, and how it is echoed.
#[derive(Debug)]
pub struct Submission {
    pub text: String,
    pub echo: String,
}

/// A submitted line: trimmed, and echoed into scrollback; a blank one is
/// nothing.
pub fn submission(line: &str) -> (r: Option<Submission>)
    ensures
        match r {
            Some(s) => {
                &&& s.text@ == trimmed(line@)
                &&& s.text@.len() > 0
                &&& s.echo@ == "\x1b[1;32m  you ›\x1b[0m "@ + s.text@
            },
            None => trimmed(line@).len() == 0,
        },
{
    let text = trim(line);
    if text.as_str().is_empty() {
        return None;
    }
    let echo = concat("\x1b[1;32m  you ›\x1b[0m ", text.as_str());
    Some(Submission { text, echo })
}

/// What a line stands for.
#[derive(Debug)]
pub enum InputType {
    Command(ChatCommand),
    Message(String),
}

/// What a submission is followed by.
#[derive(Debug)]
pub enum SubmissionStep {
    /// Run a turn on this prompt.
    Ask(String),
    /// Say this.
    Warn(Notice),
    /// Run the command, in cooked mode with the anchor erased.
    Handle,
}

/// The conversation ends in a message that was just typed.
pub open spec fn typed(before: Session, after: Session, message: Seq<char>) -> bool {
    &&& after.messages@.len() == before.messages@.len() + 1
    &&& after.messages@.drop_last() == before.messages@
    &&& !after.messages@.last().stored()
    &&& after.messages@.last().content@ == message
    &&& after.messages@.last().role is User
    &&& after.messages@.last().message_type@ == STANDARD@
    &&& after.messages@.last().compaction_metadata is None
    &&& after == (Session { messages: after.messages, ..before })
}

/// Handle one submitted line in anchored mode, once it is known what it
/// stands for.
pub fn process_submission(chat: &mut InteractiveSession, input: &InputType) -> (r: SubmissionStep)
    ensures
        match *input {
            InputType::Command(ChatCommand::Retry) => {
                let messages = old(chat).session.messages@;
                &&& final(chat).session.messages@ == (if ends_in_answer(messages) {
                    messages.drop_last()
                } else {
                    messages
                })
                &&& *final(chat) == (InteractiveSession {
                    session: Session {
                        messages: final(chat).session.messages,
                        ..old(chat).session
                    },
                    ..*old(chat)
                })
                &&& if ends_in_answer(messages) && ends_in_prompt(messages.drop_last()) {
                    r matches SubmissionStep::Ask(text) && text
                        == messages.drop_last().last().content
                } else {
                    r matches SubmissionStep::Warn(n) && n@ == Told::Warning(
                        "No AI response to retry"@,
                    )
                }
            },
            InputType::Command(_) => r is Handle && *final(chat) == *old(chat),
            InputType::Message(message) => {
                &&& r matches SubmissionStep::Ask(text) && text == message
                &&& typed(old(chat).session, final(chat).session, message@)
                &&& *final(chat) == (InteractiveSession {
                    session: final(chat).session,
                    ..*old(chat)
                })
            },
        },
{
    match input {
        InputType::Command(command) => match command {
            ChatCommand::Retry => match chat.take_back_answer() {
                Some(content) => SubmissionStep::Ask(content),
                None => SubmissionStep::Warn(
                    Notice::Warning("No AI response to retry".to_owned()),
                ),
            },
            _ => SubmissionStep::Handle,
        },
        InputType::Message(message) => {
            chat.session.add_raw_message(message.clone(), Role::User);
            SubmissionStep::Ask(message.clone())
        },
    }
}

/// Handle regular chat messages (plain mode): the message joins the
/// conversation before it is answered.
pub fn handle_message(chat: &mut InteractiveSession, message: &String)
    ensures
        typed(old(chat).session, final(chat).session, message@),
        *final(chat) == (InteractiveSession { session: final(chat).session, ..*old(chat) }),
{
    chat.session.add_raw_message(message.clone(), Role::User);
}

// ---------------------------------------------------------------------
// During a turn
// ---------------------------------------------------------------------

/// Something that happens while a response is awaited.
#[derive(Debug)]
pub enum TurnInput {
    /// The call ended, with an answer in the conversation or an error.
    Finished(Result<(), String>),
    Tick,
    Key(Key),
    Paste(String),
    Other,
    Closed,
    Shutdown,
}

/// How a turn ended.
#[derive(Debug)]
pub enum TurnOutcome {
    Done(Result<(), String>),
    Cancelled,
    InputClosed,
}

/// What something that happens during a turn is followed by.
#[derive(Debug)]
pub enum TurnStep {
    End(TurnOutcome),
    Stay,
    Draw,
    /// Hand the key to the line editor.
    Edit,
    /// Put this text into the line editor, and draw.
    Insert(String),
}

/// What something that happens while a response is awaited is followed by.
pub fn turn_input(input: &TurnInput) -> (r: TurnStep)
    ensures
        match *input {
            TurnInput::Finished(result) => r matches TurnStep::End(TurnOutcome::Done(x)) && x
                == result,
            TurnInput::Tick => r is Draw,
            TurnInput::Key(key) => if key.released {
                r is Stay
            } else {
                r is Edit
            },
            TurnInput::Paste(text) => r matches TurnStep::Insert(t) && t == text,
            TurnInput::Other => r is Stay,
            TurnInput::Closed | TurnInput::Shutdown => r matches TurnStep::End(
                TurnOutcome::InputClosed,
            ),
        },
{
    match input {
        TurnInput::Finished(result) => TurnStep::End(
            TurnOutcome::Done(
                match result {
                    Ok(done) => Ok(*done),
                    Err(error) => Err(error.clone()),
                },
            ),
        ),
        TurnInput::Tick => TurnStep::Draw,
        TurnInput::Key(key) => if key.released {
            TurnStep::Stay
        } else {
            TurnStep::Edit
        },
        TurnInput::Paste(text) => TurnStep::Insert(text.clone()),
        TurnInput::Other => TurnStep::Stay,
        // The terminal went away mid-response. The prompt is already on disk;
        // leave promptly and save on the way out.
        TurnInput::Closed | TurnInput::Shutdown => TurnStep::End(TurnOutcome::InputClosed),
    }
}

/// What the line editor's verdict on a key during a turn is followed by:
/// submissions are queued, and Esc cancels the request in flight.
pub fn turn_edited(chat: &mut InteractiveSession, ui: &mut AnchorUi, event: &EditorEvent) -> (r:
    TurnStep)
    requires
        old(ui).wf(),
    ensures
        final(ui).wf(),
        *final(chat) == (if *event is Exit {
            leaving(*old(chat))
        } else {
            *old(chat)
        }),
        *final(ui) == (AnchorUi { queued: final(ui).queued, ..*old(ui) }),
        match *event {
            EditorEvent::Submit(text) => {
                &&& r is Stay
                &&& if trimmed(text@).len() > 0 {
                    &&& final(ui).queued@.len() == old(ui).queued@.len() + 1
                    &&& final(ui).queued@.drop_last() == old(ui).queued@
                    &&& final(ui).queued@.last()@ == trimmed(text@)
                } else {
                    final(ui).queued == old(ui).queued
                }
            },
            EditorEvent::Cancel | EditorEvent::Exit => final(ui).queued == old(ui).queued && (
            r matches TurnStep::End(TurnOutcome::Cancelled)),
            EditorEvent::Redraw | EditorEvent::Nothing => final(ui).queued == old(ui).queued
                && r is Draw,
        },
{
    match event {
        EditorEvent::Submit(text) => {
            let line = trim(text.as_str());
            if !line.as_str().is_empty() {
                ui.queued.push_back(line);
                assert(ui.queued@.drop_last() =~= old(ui).queued@);
            }
            TurnStep::Stay
        },
        EditorEvent::Cancel => TurnStep::End(TurnOutcome::Cancelled),
        EditorEvent::Exit => {
            chat.should_exit = true;
            TurnStep::End(TurnOutcome::Cancelled)
        },
        EditorEvent::Redraw | EditorEvent::Nothing => TurnStep::Draw,
    }
}

// ---------------------------------------------------------------------
// The course of a turn
// ---------------------------------------------------------------------

/// Something that is done in the course of a turn.
#[derive(Debug)]
pub enum TurnEffect {
    /// Store the prompt; a failure is told, and the turn goes on.
    WriteAhead,
    /// Put placeholders for what must not be sent.
    Redact,
    /// Call the provider.
    Call,
    /// Put the real text back.
    Unredact,
    /// Store the conversation; a failure ends the turn.
    Persist,
    /// Name the session after its first prompt.
    NameSession,
    /// Erase the anchor and drop to cooked mode.
    Suspend,
    /// Show the answer.
    Paint,
    /// Back to raw mode.
    Resume,
    Tell(Notice),
    /// Hand the prompt back to the user.
    OfferBack(Option<String>),
}

/// What is done in the course of a turn, by its texts.
pub enum Course {
    WriteAhead,
    Redact,
    Call,
    Unredact,
    Persist,
    NameSession,
    Suspend,
    Paint,
    Resume,
    Tell(Told),
    OfferBack(Option<Seq<char>>),
}

impl View for TurnEffect {
    type V = Course;

    open spec fn view(&self) -> Course {
        match self {
            TurnEffect::WriteAhead => Course::WriteAhead,
            TurnEffect::Redact => Course::Redact,
            TurnEffect::Call => Course::Call,
            TurnEffect::Unredact => Course::Unredact,
            TurnEffect::Persist => Course::Persist,
            TurnEffect::NameSession => Course::NameSession,
            TurnEffect::Suspend => Course::Suspend,
            TurnEffect::Paint => Course::Paint,
            TurnEffect::Resume => Course::Resume,
            TurnEffect::Tell(n) => Course::Tell(n@),
            TurnEffect::OfferBack(text) => Course::OfferBack(
                match text {
                    Some(t) => Some(t@),
                    None => None,
                },
            ),
        }
    }
}

/// What a list of effects comes to.
pub open spec fn course(list: Seq<TurnEffect>) -> Seq<Course> {
    list.map_values(|e: TurnEffect| e@)
}

/// How every turn starts: the prompt is stored before the request goes out.
pub open spec fn opening() -> Seq<Course> {
    seq![Course::WriteAhead, Course::Redact, Course::Call]
}

/// The start of a turn on a prompt, once the files of the context are in it.
///
/// If the connection drops, the terminal closes or the process is killed
/// between here and the response, the typed text is already on disk.
pub fn begin_turn() -> (r: Vec<TurnEffect>)
    ensures
        course(r@) == opening(),
{
    let r = vec![TurnEffect::WriteAhead, TurnEffect::Redact, TurnEffect::Call];
    assert(course(r@) =~= opening());
    r
}

/// What is told when a prompt could not be stored ahead.
pub fn write_ahead_notice(error: &str) -> (r: Notice)
    ensures
        r@ == Told::Error("Could not save your message: "@ + error@),
{
    Notice::Error(concat("Could not save your message: ", error))
}

/// Go on with a turn once its prompt was stored ahead: a failure is told, and
/// what remains of the turn is done all the same.
pub fn after_write_ahead(stored: Result<(), String>, remaining: Vec<TurnEffect>) -> (r: (
    Option<Notice>,
    Vec<TurnEffect>,
))
    ensures
        r.1 == remaining,
        match stored {
            Ok(_) => r.0 is None,
            Err(error) => r.0 matches Some(n) && n@ == Told::Error(
                "Could not save your message: "@ + error@,
            ),
        },
{
    match stored {
        Ok(_) => (None, remaining),
        Err(error) => (Some(write_ahead_notice(error.as_str())), remaining),
    }
}

/// What is left of a turn once the conversation was saved, or was not.
pub open spec fn left_after_save(saved: bool, remaining: Seq<Course>) -> Seq<Course> {
    if saved {
        remaining
    } else {
        Seq::empty()
    }
}

/// The steps that are still to be done; none after an error.
pub open spec fn steps_left(r: Result<Vec<TurnEffect>, String>) -> Seq<Course> {
    match r {
        Ok(list) => course(list@),
        Err(_) => Seq::empty(),
    }
}

/// Go on with a turn once a save of the conversation was tried: what remains
/// is done only when it succeeded, and a failure ends the turn with its error.
pub fn after_save(saved: Result<(), String>, remaining: Vec<TurnEffect>) -> (r: Result<
    Vec<TurnEffect>,
    String,
>)
    ensures
        match saved {
            Ok(_) => r == Ok::<Vec<TurnEffect>, String>(remaining),
            Err(error) => r == Err::<Vec<TurnEffect>, String>(error),
        },
        steps_left(r) == left_after_save(saved is Ok, course(remaining@)),
{
    match saved {
        Ok(_) => Ok(remaining),
        Err(error) => Err(error),
    }
}

/// How a turn that was answered ends.
pub open spec fn answered(mode: Mode) -> Seq<Course> {
    match mode {
        Mode::Anchored => seq![
            Course::Unredact,
            Course::Persist,
            Course::NameSession,
            Course::Suspend,
            Course::Paint,
            Course::Resume,
            Course::Unredact,
        ],
        Mode::Plain => seq![
            Course::Unredact,
            Course::Persist,
            Course::NameSession,
            Course::Paint,
            Course::Unredact,
        ],
    }
}

/// What a turn without an answer leaves for the user: the line as it was
/// typed, not the prompt that the files of the context were folded into.
pub open spec fn left_behind(chat: InteractiveSession, user_input: Seq<char>) -> Option<Seq<char>> {
    if ends_in_prompt(chat.session.messages@) {
        Some(user_input)
    } else {
        None
    }
}

/// How a turn in anchored mode ends.
pub open spec fn anchored_ending(
    chat: InteractiveSession,
    user_input: Seq<char>,
    outcome: TurnOutcome,
) -> Seq<Course> {
    match outcome {
        TurnOutcome::Done(Ok(_)) => answered(Mode::Anchored),
        TurnOutcome::Done(Err(error)) => seq![
            Course::Tell(Told::Error("AI Error: "@ + error@)),
            Course::OfferBack(left_behind(chat, user_input)),
            Course::Unredact,
        ],
        TurnOutcome::Cancelled => seq![
            Course::Tell(Told::Text("\x1b[2m  ✋ response cancelled\x1b[0m"@)),
            Course::OfferBack(left_behind(chat, user_input)),
            Course::Unredact,
        ],
        TurnOutcome::InputClosed => seq![Course::Unredact],
    }
}

/// The messages after a turn ended without an answer.
pub open spec fn taken_back(messages: Seq<Message>) -> Seq<Message> {
    if ends_in_prompt(messages) {
        messages.drop_last()
    } else {
        messages
    }
}

/// The messages after a turn ended.
pub open spec fn after_turn(messages: Seq<Message>, outcome: TurnOutcome) -> Seq<Message> {
    match outcome {
        TurnOutcome::Done(Err(_)) | TurnOutcome::Cancelled => taken_back(messages),
        _ => messages,
    }
}

fn take_prompt_back(chat: &mut InteractiveSession, user_input: &str) -> (r: Option<String>)
    ensures
        match r {
            Some(s) => left_behind(*old(chat), user_input@) == Some(s@),
            None => left_behind(*old(chat), user_input@) is None,
        },
        final(chat).session.messages@ == taken_back(old(chat).session.messages@),
        *final(chat) == (InteractiveSession {
            session: Session { messages: final(chat).session.messages, ..old(chat).session },
            ..*old(chat)
        }),
{
    match chat.take_trailing_user_message() {
        Some(_) => Some(user_input.to_owned()),
        None => None,
    }
}

/// The end of a turn in anchored mode.
///
/// The real text is restored before anything is written: the redaction
/// mapping is regenerated per run and never stored, so persisting the
/// placeholder form would corrupt the conversation permanently. The answer is
/// stored before it is painted: rendering drops back to cooked mode, which
/// re-arms Ctrl+C, and a save after the paint could lose an answer the user
/// had already read. A failed or cancelled prompt leaves the conversation, but
/// what was typed goes back to the editor.
pub fn anchored_ai_turn(
    chat: &mut InteractiveSession,
    user_input: &str,
    outcome: &TurnOutcome,
) -> (r: Vec<TurnEffect>)
    ensures
        course(r@) == anchored_ending(*old(chat), user_input@, *outcome),
        final(chat).session.messages@ == after_turn(old(chat).session.messages@, *outcome),
        *final(chat) == (InteractiveSession {
            session: Session { messages: final(chat).session.messages, ..old(chat).session },
            should_exit: old(chat).should_exit || *outcome is InputClosed,
            ..*old(chat)
        }),
{
    let ghost want = anchored_ending(*chat, user_input@, *outcome);
    let mut r: Vec<TurnEffect> = Vec::new();
    match outcome {
        TurnOutcome::Done(result) => match result {
            Ok(_) => {
                r.push(TurnEffect::Unredact);
                r.push(TurnEffect::Persist);
                r.push(TurnEffect::NameSession);
                r.push(TurnEffect::Suspend);
                r.push(TurnEffect::Paint);
                r.push(TurnEffect::Resume);
            },
            Err(error) => {
                let unsent = take_prompt_back(chat, user_input);
                r.push(TurnEffect::Tell(Notice::Error(concat("AI Error: ", error.as_str()))));
                r.push(TurnEffect::OfferBack(unsent));
            },
        },
        TurnOutcome::Cancelled => {
            let unsent = take_prompt_back(chat, user_input);
            r.push(
                TurnEffect::Tell(
                    Notice::Text("\x1b[2m  ✋ response cancelled\x1b[0m".to_owned()),
                ),
            );
            r.push(TurnEffect::OfferBack(unsent));
        },
        TurnOutcome::InputClosed => {
            chat.should_exit = true;
        },
    }
    // Failed and cancelled turns still hold redacted text.
    r.push(TurnEffect::Unredact);
    assert(course(r@) =~= want);
    r
}

/// How a turn in plain mode ends.
pub open spec fn plain_ending(chat: InteractiveSession, result: Result<(), String>) -> Seq<Course> {
    match result {
        Ok(_) => answered(Mode::Plain),
        Err(error) => if ends_in_prompt(chat.session.messages@) {
            seq![
                Course::Tell(Told::Error("AI Error: "@ + error@)),
                Course::Tell(
                    Told::Warning("Your message was saved — recover it with /unsent"@),
                ),
                Course::Unredact,
            ]
        } else {
            seq![Course::Tell(Told::Error("AI Error: "@ + error@)), Course::Unredact]
        },
    }
}

/// The end of a turn in plain mode. After a failure the prompt stays on disk
/// as an unsent message, and leaves the live conversation so the next turn is
/// not sent twice.
pub fn generate_ai_response(chat: &mut InteractiveSession, result: &Result<(), String>) -> (r: Vec<
    TurnEffect,
>)
    ensures
        course(r@) == plain_ending(*old(chat), *result),
        final(chat).session.messages@ == (if *result is Err {
            taken_back(old(chat).session.messages@)
        } else {
            old(chat).session.messages@
        }),
        *final(chat) == (InteractiveSession {
            session: Session { messages: final(chat).session.messages, ..old(chat).session },
            ..*old(chat)
        }),
{
    let ghost want = plain_ending(*chat, *result);
    let mut r: Vec<TurnEffect> = Vec::new();
    match result {
        Ok(_) => {
            r.push(TurnEffect::Unredact);
            r.push(TurnEffect::Persist);
            r.push(TurnEffect::NameSession);
            r.push(TurnEffect::Paint);
        },
        Err(error) => {
            r.push(TurnEffect::Tell(Notice::Error(concat("AI Error: ", error.as_str()))));
            if let Some(_) = chat.take_trailing_user_message() {
                r.push(
                    TurnEffect::Tell(
                        Notice::Warning(
                            "Your message was saved — recover it with /unsent".to_owned(),
                        ),
                    ),
                );
            }
        },
    }
    r.push(TurnEffect::Unredact);
    assert(course(r@) =~= want);
    r
}

/// The answer that is shown: the last message, when it is from the assistant.
pub fn latest_answer(chat: &InteractiveSession) -> (r: Option<String>)
    ensures
        r == if ends_in_answer(chat.session.messages@) {
            Some(chat.session.messages@.last().content)
        } else {
            None
        },
{
    let count = chat.session.messages.len();
    if count > 0 && chat.session.messages[count - 1].role.is_assistant() {
        Some(chat.session.messages[count - 1].content.clone())
    } else {
        None
    }
}

/// The heading of an answer in anchored mode.
pub const ANSWER_HEADING: &'static str = "\x1b[1;35m  ai  ›\x1b[0m";

/// What is told at the very end.
pub fn goodbye() -> (r: Notice)
    ensures
        r@ == Told::Success("Chat session ended. Goodbye! 👋"@),
{
    Notice::Success("Chat session ended. Goodbye! 👋".to_owned())
}

/// How the anchored mode ends: the loop's error is reported after the save,
/// whose own error comes second. Leaving with the loop's error at once used to
/// skip the exit save, so the run that failed was exactly the run whose
/// conversation was thrown away.
pub fn run_anchored(looped: Result<(), String>, finished: Result<(), String>) -> (r: Result<
    (),
    String,
>)
    ensures
        r == if looped is Err {
            looped
        } else {
            finished
        },
{
    match looped {
        Err(error) => Err(error),
        Ok(_) => finished,
    }
}

// ---------------------------------------------------------------------
// Laws
// ---------------------------------------------------------------------

/// A prompt is stored before it is redacted, and redacted before it is sent.
pub proof fn a_prompt_is_stored_before_it_is_sent()
    ensures
        opening().len() == 3,
        opening()[0] is WriteAhead,
        opening()[1] is Redact,
        opening()[2] is Call,
{
}

/// An answer is stored with its real text, and stored before it is shown:
/// whatever comes before a save of a turn includes putting the real text back,
/// and nothing that comes before it shows the answer.
pub proof fn an_answer_is_stored_as_real_text_before_it_is_shown(
    chat: InteractiveSession,
    user_input: Seq<char>,
    outcome: TurnOutcome,
    i: int,
)
    requires
        0 <= i < anchored_ending(chat, user_input, outcome).len(),
        anchored_ending(chat, user_input, outcome)[i] is Persist,
    ensures
        exists|k: int| 0 <= k < i && (#[trigger] anchored_ending(chat, user_input, outcome)[k]) is Unredact,
        forall|k: int|
            0 <= k < i ==> !((#[trigger] anchored_ending(chat, user_input, outcome)[k]) is Paint),
{
    assert(anchored_ending(chat, user_input, outcome)[0] is Unredact);
}

/// The same of a turn in plain mode.
pub proof fn a_plain_answer_is_stored_as_real_text_before_it_is_shown(
    chat: InteractiveSession,
    result: Result<(), String>,
    i: int,
)
    requires
        0 <= i < plain_ending(chat, result).len(),
        plain_ending(chat, result)[i] is Persist,
    ensures
        exists|k: int| 0 <= k < i && (#[trigger] plain_ending(chat, result)[k]) is Unredact,
        forall|k: int| 0 <= k < i ==> !((#[trigger] plain_ending(chat, result)[k]) is Paint),
{
    assert(plain_ending(chat, result)[0] is Unredact);
}

/// What is done of a list of steps when the save that is among them succeeds,
/// or does not.
pub open spec fn carried_out(list: Seq<Course>, saved: bool) -> Seq<Course>
    decreases list.len(),
{
    if list.len() == 0 {
        Seq::empty()
    } else {
        let rest = list.skip(1);
        seq![list[0]] + carried_out(
            if list[0] is Persist {
                left_after_save(saved, rest)
            } else {
                rest
            },
            saved,
        )
    }
}

proof fn lemma_all_carried_out(list: Seq<Course>, saved: bool)
    requires
        saved || forall|k: int| 0 <= k < list.len() ==> !((#[trigger] list[k]) is Persist),
    ensures
        carried_out(list, saved) == list,
    decreases list.len(),
{
    if list.len() > 0 {
        let rest = list.skip(1);
        assert(forall|k: int| 0 <= k < rest.len() ==> rest[k] == list[k + 1]);
        assert(!(list[0] is Persist) || saved);
        lemma_all_carried_out(rest, saved);
        assert(seq![list[0]] + rest =~= list);
    } else {
        assert(carried_out(list, saved) =~= list);
    }
}

proof fn lemma_carried_out_up_to(list: Seq<Course>, at: int)
    requires
        0 <= at < list.len(),
        list[at] is Persist,
        forall|k: int| 0 <= k < at ==> !((#[trigger] list[k]) is Persist),
    ensures
        carried_out(list, false) == list.take(at + 1),
    decreases at,
{
    let rest = list.skip(1);
    if at == 0 {
        assert(carried_out(Seq::<Course>::empty(), false) =~= Seq::<Course>::empty());
        assert(carried_out(list, false) =~= list.take(1));
    } else {
        assert(!(list[0] is Persist));
        assert(forall|k: int| 0 <= k < rest.len() ==> rest[k] == list[k + 1]);
        lemma_carried_out_up_to(rest, at - 1);
        assert(seq![list[0]] + rest.take(at) =~= list.take(at + 1));
    }
}

/// An answer that could not be stored ends the turn: the real text was put
/// back and the save was tried, and nothing else is done.
pub proof fn a_failed_save_ends_the_turn(mode: Mode)
    ensures
        carried_out(answered(mode), false) == seq![Course::Unredact, Course::Persist],
        carried_out(answered(mode), true) == answered(mode),
{
    let list = answered(mode);
    assert(!(list[0] is Persist));
    lemma_carried_out_up_to(list, 1);
    assert(list.take(2) =~= seq![Course::Unredact, Course::Persist]);
    lemma_all_carried_out(list, true);
}

/// However a turn ends, the real text is put back: it is the last step of every
/// ending, and where a failed save cuts the ending short it came before that.
pub proof fn every_turn_ends_with_the_real_text(
    chat: InteractiveSession,
    user_input: Seq<char>,
    outcome: TurnOutcome,
    result: Result<(), String>,
    saved: bool,
)
    ensures
        anchored_ending(chat, user_input, outcome).last() is Unredact,
        plain_ending(chat, result).last() is Unredact,
        exists|k: int|
            0 <= k < carried_out(anchored_ending(chat, user_input, outcome), saved).len() && (
            #[trigger] carried_out(anchored_ending(chat, user_input, outcome), saved)[k])
                is Unredact,
        exists|k: int|
            0 <= k < carried_out(plain_ending(chat, result), saved).len() && (
            #[trigger] carried_out(plain_ending(chat, result), saved)[k]) is Unredact,
{
    let anchored = anchored_ending(chat, user_input, outcome);
    let plain_list = plain_ending(chat, result);
    a_failed_save_ends_the_turn(Mode::Anchored);
    a_failed_save_ends_the_turn(Mode::Plain);
    if outcome matches TurnOutcome::Done(Ok(_)) {
        assert(carried_out(anchored, saved)[0] is Unredact);
    } else {
        assert forall|k: int| 0 <= k < anchored.len() implies !((#[trigger] anchored[k])
            is Persist) by {}
        lemma_all_carried_out(anchored, saved);
        assert(carried_out(anchored, saved)[anchored.len() - 1] is Unredact);
    }
    if result is Ok {
        assert(carried_out(plain_list, saved)[0] is Unredact);
    } else {
        assert forall|k: int| 0 <= k < plain_list.len() implies !((#[trigger] plain_list[k])
            is Persist) by {}
        lemma_all_carried_out(plain_list, saved);
        assert(carried_out(plain_list, saved)[plain_list.len() - 1] is Unredact);
    }
}

/// Nothing is shown that was not stored: an answer is shown only after a save,
/// and only when that save succeeded.
pub proof fn nothing_is_shown_that_was_not_stored(
    chat: InteractiveSession,
    user_input: Seq<char>,
    outcome: TurnOutcome,
    saved: bool,
    i: int,
)
    requires
        0 <= i < carried_out(anchored_ending(chat, user_input, outcome), saved).len(),
        carried_out(anchored_ending(chat, user_input, outcome), saved)[i] is Paint,
    ensures
        saved,
        exists|k: int|
            0 <= k < i && (#[trigger] carried_out(
                anchored_ending(chat, user_input, outcome),
                saved,
            )[k]) is Persist,
{
    let list = anchored_ending(chat, user_input, outcome);
    a_failed_save_ends_the_turn(Mode::Anchored);
    if !(outcome matches TurnOutcome::Done(Ok(_))) {
        assert forall|k: int| 0 <= k < list.len() implies !((#[trigger] list[k]) is Persist) by {}
        lemma_all_carried_out(list, saved);
    }
    assert(carried_out(list, saved)[1] is Persist);
}

/// The same of a turn in plain mode.
pub proof fn nothing_is_shown_in_plain_mode_that_was_not_stored(
    chat: InteractiveSession,
    result: Result<(), String>,
    saved: bool,
    i: int,
)
    requires
        0 <= i < carried_out(plain_ending(chat, result), saved).len(),
        carried_out(plain_ending(chat, result), saved)[i] is Paint,
    ensures
        saved,
        exists|k: int|
            0 <= k < i && (#[trigger] carried_out(plain_ending(chat, result), saved)[k]) is Persist,
{
    let list = plain_ending(chat, result);
    a_failed_save_ends_the_turn(Mode::Plain);
    if result is Err {
        assert forall|k: int| 0 <= k < list.len() implies !((#[trigger] list[k]) is Persist) by {}
        lemma_all_carried_out(list, saved);
    }
    assert(carried_out(list, saved)[1] is Persist);
}

/// A turn that fails or is cancelled gives back what was typed, also where the
/// files of the context were folded into the prompt, and takes the prompt, and
/// nothing else, out of the conversation.
pub proof fn a_failed_prompt_is_given_back(
    chat: InteractiveSession,
    user_input: Seq<char>,
    outcome: TurnOutcome,
)
    requires
        ends_in_prompt(chat.session.messages@),
        outcome is Cancelled || (outcome matches TurnOutcome::Done(Err(_))),
    ensures
        anchored_ending(chat, user_input, outcome)[1] == Course::OfferBack(Some(user_input)),
        after_turn(chat.session.messages@, outcome) == chat.session.messages@.drop_last(),
{
}

/// A message that was typed and not answered leaves the conversation as it was
/// before, and comes back word for word.
pub proof fn a_failed_message_leaves_no_trace(
    before: Session,
    chat: InteractiveSession,
    message: Seq<char>,
    outcome: TurnOutcome,
)
    requires
        typed(before, chat.session, message),
        outcome is Cancelled || (outcome matches TurnOutcome::Done(Err(_))),
    ensures
        anchored_ending(chat, message, outcome)[1] == Course::OfferBack(Some(message)),
        after_turn(chat.session.messages@, outcome) == before.messages@,
{
}

} // verus!
