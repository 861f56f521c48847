//! An interactive chat session.
//!
//! On a real terminal the input is pinned at the bottom, the conversation
//! flows into native scrollback and typing is allowed while a response is in
//! flight. When stdin or stdout is piped it falls back to a plain line-based
//! loop so scripted usage keeps working.

use crate::chat::anchor_ui::{AnchorUi, SpinnerInfo, StatusInfo};
use crate::chat::context::{create_contextual_input, Files};
#[allow(unused_imports)]
use crate::chat::context::contextual;
use crate::chat::naming::{derive_name, is_auto_name, slugify};
#[allow(unused_imports)]
use crate::chat::naming::{a_derived_name_is_kept, auto_name, derived_name, slug};
use crate::chat::notice::Notice;
#[allow(unused_imports)]
use crate::chat::notice::{told, Told};
use crate::chat::provider::ChatState;
use crate::session::model::{Message, Session};
use crate::text::{blank, concat, decimal_text, signed_text, trim};
#[allow(unused_imports)]
use crate::text::{
    decimal, is_blank, signed_decimal, texts, trimmed,
};
use crate::time::{day_text, Timestamp};
#[allow(unused_imports)]
use crate::time::{formatted, DAY_FORMAT};
use vstd::prelude::*;

verus! {

/// How the chat talks to the user.
#[derive(Debug, Clone, Copy, PartialEq, Eq, Structural)]
pub enum Mode {
    /// The input line is pinned to the bottom of the terminal.
    Anchored,
    /// Lines are read from stdin and responses printed.
    Plain,
}

/// Manages an interactive chat session.
#[derive(Debug)]
pub struct InteractiveSession {
    pub session: Session,
    pub context_files: Vec<Files>,
    pub should_exit: bool,
    pub chat_state: ChatState,
    /// `termai chat "question"` — run as the first turn instead of being
    /// announced and then dropped.
    pub initial_input: Option<String>,
}

/// The first message that is from the user.
pub open spec fn first_prompt(messages: Seq<Message>) -> Option<Message>
    decreases messages.len(),
{
    if messages.len() == 0 {
        None
    } else if messages[0].role is User {
        Some(messages[0])
    } else {
        first_prompt(messages.skip(1))
    }
}

/// The characters of all the messages.
pub open spec fn total_chars(messages: Seq<Message>) -> nat
    decreases messages.len(),
{
    if messages.len() == 0 {
        0
    } else {
        total_chars(messages.drop_last()) + messages.last().content@.len()
    }
}

proof fn lemma_total_prefix(messages: Seq<Message>, n: int)
    requires
        0 <= n <= messages.len(),
    ensures
        total_chars(messages.take(n)) <= total_chars(messages),
    decreases messages.len(),
{
    if n < messages.len() {
        lemma_total_prefix(messages.drop_last(), n);
        assert(messages.drop_last().take(n) =~= messages.take(n));
    } else {
        assert(messages.take(n) =~= messages);
    }
}

/// Cheap token estimate (~4 chars per token) for the status line.
pub fn estimate_tokens(session: &Session) -> (r: usize)
    requires
        total_chars(session.messages@) <= usize::MAX,
    ensures
        r == total_chars(session.messages@) / 4,
{
    let mut total: usize = 0;
    let ghost all = session.messages@;
    for i in 0..session.messages.len()
        invariant
            all == session.messages@,
            total_chars(all) <= usize::MAX,
            total == total_chars(all.take(i as int)),
    {
        proof {
            assert(all.take(i + 1).drop_last() =~= all.take(i as int));
            lemma_total_prefix(all, i + 1);
        }
        total += session.messages[i].content.as_str().unicode_len();
    }
    assert(all.take(all.len() as int) =~= all);
    total / 4
}

/// The indicator after so many milliseconds. `activity` is what the provider
/// is doing, and for how long, if it says so.
pub fn spinner_info(elapsed_millis: u64, frames: usize, activity: Option<(String, u64)>) -> (r:
    SpinnerInfo)
    requires
        frames > 0,
    ensures
        r.frame == ((elapsed_millis / 100) as usize) % frames,
        match activity {
            Some((label, millis)) => r.elapsed_millis == millis && r.label@ == "🌐 "@ + label@,
            None => r.elapsed_millis == elapsed_millis && r.label@ == "thinking"@,
        },
{
    let frame: usize = (#[verifier::truncate]
    ((elapsed_millis / 100) as usize)) % frames;
    match activity {
        Some((label, millis)) => SpinnerInfo {
            frame,
            elapsed_millis: millis,
            label: concat("🌐 ", label.as_str()),
        },
        None => SpinnerInfo {
            frame,
            elapsed_millis,
            label: "thinking".to_owned(),
        },
    }
}

/// What becomes of a prompt that got no answer.
#[derive(Debug)]
pub struct Offer {
    /// What the input line is set to.
    pub input: Option<String>,
    /// What is printed above it.
    pub line: String,
}

/// The last message is from the user.
pub open spec fn ends_in_prompt(messages: Seq<Message>) -> bool {
    messages.len() > 0 && messages.last().role is User
}

/// The last message is from the assistant.
pub open spec fn ends_in_answer(messages: Seq<Message>) -> bool {
    messages.len() > 0 && messages.last().role is Assistant
}

/// What is done on the way out.
#[derive(Debug, Clone, Copy, PartialEq, Eq, Structural)]
pub enum ExitStep {
    /// Opening a chat and closing it again should not leave a session behind
    /// for the user to wade through later.
    DiscardIfEmpty,
    /// Say that nothing was kept.
    WarnTemporary,
    /// Name the session, store it and check that it was stored.
    Save,
}

/// How `/save` goes on.
#[derive(Debug)]
pub enum SaveStep {
    Rename(String),
    NameAfterPrompt,
}

impl InteractiveSession {
    /// Create a new interactive session
    pub fn new(session: Session, context_files: Vec<Files>, chat_state: ChatState) -> (r: Self)
        ensures
            r.session == session,
            r.context_files == context_files,
            !r.should_exit,
            r.chat_state == chat_state,
            r.initial_input is None,
    {
        InteractiveSession {
            session,
            context_files,
            should_exit: false,
            chat_state,
            initial_input: None,
        }
    }

    /// Queue the message given on the command line as the opening turn.
    pub fn with_initial_input(self, input: Option<String>) -> (r: Self)
        ensures
            r == (InteractiveSession { initial_input: r.initial_input, ..self }),
            r.initial_input == match input {
                Some(text) => if is_blank(text@) {
                    None
                } else {
                    Some(text)
                },
                None => None,
            },
    {
        let initial_input = match input {
            Some(text) => if blank(text.as_str()) {
                None
            } else {
                Some(text)
            },
            None => None,
        };
        InteractiveSession {
            session: self.session,
            context_files: self.context_files,
            should_exit: self.should_exit,
            chat_state: self.chat_state,
            initial_input,
        }
    }

    /// Start the interactive chat session: in which mode it runs.
    pub fn run(stdin_is_tty: bool, stdout_is_tty: bool) -> (r: Mode)
        ensures
            r is Anchored <==> stdin_is_tty && stdout_is_tty,
    {
        if stdin_is_tty && stdout_is_tty {
            Mode::Anchored
        } else {
            Mode::Plain
        }
    }

    /// The opening turn, which is run once.
    pub fn take_initial_input(&mut self) -> (r: Option<String>)
        ensures
            r == old(self).initial_input,
            *final(self) == (InteractiveSession { initial_input: None, ..*old(self) }),
    {
        let input = match &self.initial_input {
            Some(text) => Some(text.clone()),
            None => None,
        };
        self.initial_input = None;
        input
    }

    /// Process user input (command or message): what is left to classify.
    pub fn process_input(input: &str) -> (r: Option<String>)
        ensures
            match r {
                Some(text) => text@ == trimmed(input@) && text@.len() > 0,
                None => trimmed(input@).len() == 0,
            },
    {
        let text = trim(input);
        if text.as_str().is_empty() {
            None
        } else {
            Some(text)
        }
    }

    // ------------------------------------------------------------------
    // Prompts and answers
    // ------------------------------------------------------------------

    /// Fold context files into the outgoing message.
    pub fn fold_context(&mut self, user_input: &str)
        ensures
            if old(self).context_files@.len() > 0 && ends_in_prompt(old(self).session.messages@) {
                let last = old(self).session.messages@.last();
                &&& final(self).session.messages@.len() == old(self).session.messages@.len()
                &&& final(self).session.messages@.drop_last()
                    == old(self).session.messages@.drop_last()
                &&& final(self).session.messages@.last().content@ == contextual(
                    old(self).context_files@,
                    user_input@,
                )
                &&& final(self).session.messages@.last() == (Message {
                    content: final(self).session.messages@.last().content,
                    ..last
                })
                &&& *final(self) == (InteractiveSession {
                    session: Session {
                        messages: final(self).session.messages,
                        ..old(self).session
                    },
                    ..*old(self)
                })
            } else {
                *final(self) == *old(self)
            },
    {
        let count = self.session.messages.len();
        if self.context_files.len() > 0 && count > 0 && self.session.messages[count
            - 1].role.is_user() {
            let content = create_contextual_input(&self.context_files, user_input);
            self.session.messages[count - 1].content = content;
            assert(self.session.messages@.drop_last() =~= old(self).session.messages@.drop_last());
        }
    }

    /// Remove an unanswered user turn from the conversation and return its
    /// text. The matching row stays on disk marked pending, so the prompt
    /// survives even if the process never gets to hand it back.
    pub fn take_trailing_user_message(&mut self) -> (r: Option<String>)
        ensures
            if ends_in_prompt(old(self).session.messages@) {
                &&& r == Some(old(self).session.messages@.last().content)
                &&& final(self).session.messages@ == old(self).session.messages@.drop_last()
                &&& *final(self) == (InteractiveSession {
                    session: Session {
                        messages: final(self).session.messages,
                        ..old(self).session
                    },
                    ..*old(self)
                })
            } else {
                r is None && *final(self) == *old(self)
            },
    {
        let count = self.session.messages.len();
        if count == 0 || !self.session.messages[count - 1].role.is_user() {
            return None;
        }
        match self.session.messages.pop() {
            Some(message) => Some(message.content),
            None => None,
        }
    }

    /// Take the last answer back, and return the prompt before it.
    pub fn take_back_answer(&mut self) -> (r: Option<String>)
        ensures
            if ends_in_answer(old(self).session.messages@) {
                let rest = old(self).session.messages@.drop_last();
                &&& final(self).session.messages@ == rest
                &&& *final(self) == (InteractiveSession {
                    session: Session {
                        messages: final(self).session.messages,
                        ..old(self).session
                    },
                    ..*old(self)
                })
                &&& r == if ends_in_prompt(rest) {
                    Some(rest.last().content)
                } else {
                    None
                }
            } else {
                r is None && *final(self) == *old(self)
            },
    {
        let count = self.session.messages.len();
        if count == 0 || !self.session.messages[count - 1].role.is_assistant() {
            return None;
        }
        let _ = self.session.messages.pop();
        let left = self.session.messages.len();
        if left > 0 && self.session.messages[left - 1].role.is_user() {
            Some(self.session.messages[left - 1].content.clone())
        } else {
            None
        }
    }

    /// Put a failed prompt back in the editor, whose buffer is handed in, so a
    /// dropped connection costs one keystroke rather than a retyped message.
    pub fn offer_unsent_back(ui: &mut AnchorUi, buffer: &str, unsent: Option<String>) -> (r: Option<
        Offer,
    >)
        requires
            old(ui).wf(),
        ensures
            final(ui).wf(),
            match unsent {
                None => r is None && *final(ui) == *old(ui),
                Some(text) => if is_blank(buffer@) {
                    &&& r matches Some(offer) && offer.input == Some(text) && offer.line@
                        == "\x1b[2m  ↩ your message is back in the prompt — press Enter to resend\x1b[0m"@
                    &&& *final(ui) == (AnchorUi {
                        palette_pin: None,
                        palette_index: 0,
                        palette_hidden: false,
                        ctrl_c_armed: false,
                        ..*old(ui)
                    })
                } else {
                    &&& r matches Some(offer) && offer.input is None && offer.line@
                        == "\x1b[2m  ↩ your message was saved — recover it with /unsent\x1b[0m"@
                    &&& *final(ui) == *old(ui)
                },
            },
    {
        match unsent {
            None => None,
            Some(text) => if blank(buffer) {
                ui.on_buffer_change();
                Some(
                    Offer {
                        input: Some(text),
                        line: "\x1b[2m  ↩ your message is back in the prompt — press Enter to resend\x1b[0m".to_owned(),
                    },
                )
            } else {
                Some(
                    Offer {
                        input: None,
                        line: "\x1b[2m  ↩ your message was saved — recover it with /unsent\x1b[0m".to_owned(),
                    },
                )
            },
        }
    }

    // ------------------------------------------------------------------
    // Naming
    // ------------------------------------------------------------------

    /// The name that the session would get on a day. A temporary session gets
    /// none: a rename would write it to the store.
    pub open spec fn new_name(self, today: Seq<char>) -> Option<Seq<char>> {
        if self.session.temporary || !auto_name(self.session.name@) {
            None
        } else {
            match first_prompt(self.session.messages@) {
                Some(m) => match slug(m.content@) {
                    Some(s) => Some(derived_name(today, s)),
                    None => None,
                },
                None => None,
            }
        }
    }

    /// Give an auto-named session a name that says what it is about, once
    /// there is a first prompt to derive one from. `now` is the local time. A
    /// name of this kind is not replaced by another one.
    pub fn name_session_after_first_prompt(&self, now: Timestamp) -> (r: Option<String>)
        requires
            now.valid(),
        ensures
            match r {
                Some(name) => self.new_name(formatted(now.seconds, now.nanos, DAY_FORMAT@))
                    == Some(name@),
                None => self.new_name(formatted(now.seconds, now.nanos, DAY_FORMAT@)) is None,
            },
            self.session.temporary ==> r is None,
            now.four_digit_year() ==> (r matches Some(name) ==> !auto_name(name@)),
    {
        if self.session.temporary || !is_auto_name(self.session.name.as_str()) {
            return None;
        }
        let ghost all = self.session.messages@;
        assert(all.skip(0) =~= all);
        for i in 0..self.session.messages.len()
            invariant
                all == self.session.messages@,
                !self.session.temporary,
                auto_name(self.session.name@),
                now.valid(),
                first_prompt(all) == first_prompt(all.skip(i as int)),
        {
            assert(all.skip(i as int)[0] == all[i as int]);
            assert(all.skip(i as int).skip(1) =~= all.skip(i + 1));
            if self.session.messages[i].role.is_user() {
                let today = day_text(now);
                return match slugify(self.session.messages[i].content.as_str()) {
                    Some(s) => {
                        proof {
                            if now.four_digit_year() {
                                assert('0' <= today@[0] <= '9');
                                a_derived_name_is_kept(today@, s@);
                            }
                        }
                        Some(derive_name(today.as_str(), s.as_str()))
                    },
                    None => None,
                };
            }
        }
        assert(all.skip(all.len() as int).len() == 0);
        None
    }

    // ------------------------------------------------------------------
    // The status line
    // ------------------------------------------------------------------

    pub fn status_info(&self, configured_effort: Option<String>) -> (r: StatusInfo)
        requires
            total_chars(self.session.messages@) <= usize::MAX,
        ensures
            r == (StatusInfo {
                model: self.chat_state.model,
                session: self.session.name,
                token_estimate: (total_chars(self.session.messages@) / 4) as usize,
                tools_enabled: self.chat_state.tools_enabled,
                effort: self.chat_state.effort(configured_effort),
            }),
    {
        StatusInfo {
            model: self.chat_state.model.clone(),
            session: self.session.name.clone(),
            token_estimate: estimate_tokens(&self.session),
            tools_enabled: self.chat_state.tools_enabled,
            effort: self.chat_state.effective_reasoning_effort(configured_effort),
        }
    }

    // ------------------------------------------------------------------
    // Saving
    // ------------------------------------------------------------------

    /// Final safety net on the way out. Every turn is already written as it
    /// completes; this catches anything added since and tells the user, from
    /// the database rather than from hope, where the conversation lives.
    pub fn save_on_exit(&self) -> (r: ExitStep)
        ensures
            r == if self.session.messages@.len() == 0 {
                ExitStep::DiscardIfEmpty
            } else if self.session.temporary {
                ExitStep::WarnTemporary
            } else {
                ExitStep::Save
            },
    {
        if self.session.messages.len() == 0 {
            ExitStep::DiscardIfEmpty
        } else if self.session.temporary {
            ExitStep::WarnTemporary
        } else {
            ExitStep::Save
        }
    }

    /// What is told about a chat that is not kept.
    pub fn temporary_notice() -> (r: Notice)
        ensures
            r@ == Told::Warning(
                "This was a --temporary chat, so nothing was saved. Use /save <name> next time to keep it."@,
            ),
    {
        Notice::Warning(
            "This was a --temporary chat, so nothing was saved. Use /save <name> next time to keep it.".to_owned(),
        )
    }

    /// What is told on the way out, given how many messages the database was
    /// found to hold.
    pub open spec fn exit_told(self, stored: Result<i64, String>) -> Told {
        match stored {
            Ok(n) => if n > 0 {
                Told::Success(
                    "Saved "@ + signed_decimal(n as int) + " messages to '"@ + self.session.name@
                        + "' — resume with: termai chat --session "@ + self.session.name@,
                )
            } else {
                Told::Error("Nothing reached the database — this conversation was NOT saved."@)
            },
            Err(e) => Told::Error("Could not verify the save: "@ + e@),
        }
    }

    pub fn exit_notice(&self, stored: &Result<i64, String>) -> (r: Notice)
        ensures
            r@ == self.exit_told(*stored),
    {
        match stored {
            Ok(n) => if *n > 0 {
                let name = self.session.name.as_str();
                let start = concat("Saved ", signed_text(*n).as_str());
                let middle = concat(concat(start.as_str(), " messages to '").as_str(), name);
                let end = concat(middle.as_str(), "' — resume with: termai chat --session ");
                Notice::Success(concat(end.as_str(), name))
            } else {
                Notice::Error(
                    "Nothing reached the database — this conversation was NOT saved.".to_owned(),
                )
            },
            Err(e) => Notice::Error(concat("Could not verify the save: ", e.as_str())),
        }
    }

    /// `/save [name]`: name the conversation, then confirm from the database
    /// that it is really there before claiming it was saved. On a
    /// `--temporary` chat it is an explicit request to keep it. Whether it was
    /// temporary is returned with the next step.
    pub fn save_session_as(&mut self, name: &Option<String>) -> (r: (bool, SaveStep))
        ensures
            *final(self) == (InteractiveSession {
                session: Session { temporary: false, ..old(self).session },
                ..*old(self)
            }),
            r.0 == old(self).session.temporary,
            match name {
                Some(value) => if trimmed(value@).len() > 0 {
                    r.1 matches SaveStep::Rename(target) && target@ == trimmed(value@)
                } else {
                    r.1 is NameAfterPrompt
                },
                None => r.1 is NameAfterPrompt,
            },
    {
        let was_temporary = self.session.temporary;
        self.session.temporary = false;
        let step = match name {
            Some(value) => {
                let target = trim(value.as_str());
                if target.as_str().is_empty() {
                    SaveStep::NameAfterPrompt
                } else {
                    SaveStep::Rename(target)
                }
            },
            None => SaveStep::NameAfterPrompt,
        };
        (was_temporary, step)
    }

    /// The rename of a `/save` was refused.
    pub fn save_refused(&mut self, was_temporary: bool, error: &str) -> (r: Notice)
        ensures
            *final(self) == (InteractiveSession {
                session: Session { temporary: was_temporary, ..old(self).session },
                ..*old(self)
            }),
            r@ == Told::Error(error@),
    {
        self.session.temporary = was_temporary;
        Notice::Error(error.to_owned())
    }

    /// What is told after a `/save`, given how many messages the database was
    /// found to hold.
    pub open spec fn save_told(self, stored: int) -> Seq<Told> {
        if stored == 0 && self.session.messages@.len() > 0 {
            seq![
                Told::Error("Nothing was written to the database — this session was NOT saved."@),
            ]
        } else {
            seq![
                Told::Saved(self.session.name@),
                Told::Success(
                    signed_decimal(stored)
                        + " messages stored — resume with: termai chat --session "@
                        + self.session.name@,
                ),
            ]
        }
    }

    pub fn save_notices(&self, stored: i64) -> (r: Vec<Notice>)
        ensures
            told(r@) == self.save_told(stored as int),
    {
        let mut r: Vec<Notice> = Vec::new();
        if stored == 0 && self.session.messages.len() > 0 {
            r.push(
                Notice::Error(
                    "Nothing was written to the database — this session was NOT saved.".to_owned(),
                ),
            );
        } else {
            r.push(Notice::Saved(self.session.name.clone()));
            let start = concat(
                signed_text(stored).as_str(),
                " messages stored — resume with: termai chat --session ",
            );
            r.push(Notice::Success(concat(start.as_str(), self.session.name.as_str())));
        }
        assert(told(r@) =~= self.save_told(stored as int));
        r
    }
}

/// What `/unsent` tells.
pub open spec fn unsent_told(unsent: Seq<Seq<char>>) -> Seq<Told> {
    if unsent.len() == 0 {
        seq![Told::Success("No unsent messages — everything you typed got a reply."@)]
    } else {
        seq![Told::Warning(decimal(unsent.len()) + " message(s) never got a reply:"@)]
            + unsent.map_values(|m: Seq<char>| Told::Text("\n"@ + m + "\n"@))
    }
}

/// `/unsent`: prompts that were stored but never answered.
pub fn display_unsent_messages(unsent: &Vec<String>) -> (r: Vec<Notice>)
    ensures
        told(r@) == unsent_told(texts(unsent@)),
{
    let mut r: Vec<Notice> = Vec::new();
    let ghost all = texts(unsent@);
    if unsent.len() == 0 {
        r.push(
            Notice::Success("No unsent messages — everything you typed got a reply.".to_owned()),
        );
        assert(told(r@) =~= unsent_told(all));
        return r;
    }
    r.push(
        Notice::Warning(
            concat(decimal_text(unsent.len() as u64).as_str(), " message(s) never got a reply:"),
        ),
    );
    let ghost head = told(r@);
    let ghost tail = all.map_values(|m: Seq<char>| Told::Text("\n"@ + m + "\n"@));
    assert(head =~= seq![Told::Warning(decimal(all.len()) + " message(s) never got a reply:"@)]);
    assert(told(r@) =~= head + tail.take(0));
    for i in 0..unsent.len()
        invariant
            all == texts(unsent@),
            tail == all.map_values(|m: Seq<char>| Told::Text("\n"@ + m + "\n"@)),
            told(r@) == head + tail.take(i as int),
    {
        let ghost before = r@;
        let start = concat("\n", unsent[i].as_str());
        r.push(Notice::Text(concat(start.as_str(), "\n")));
        assert(told(r@) =~= told(before).push(tail[i as int]));
        assert(told(r@) =~= head + tail.take(i + 1));
    }
    assert(tail.take(all.len() as int) =~= tail);
    r
}

// ---------------------------------------------------------------------
// Laws
// ---------------------------------------------------------------------

/// A chat says that it was saved only when the database was found to hold
/// messages of it.
pub proof fn a_save_is_claimed_only_when_it_was_found(
    chat: InteractiveSession,
    stored: Result<i64, String>,
)
    ensures
        chat.exit_told(stored) is Success <==> (stored matches Ok(n) && n > 0),
{
}

/// `/save` of a conversation claims nothing when the database holds none of
/// it.
pub proof fn a_save_of_nothing_is_an_error(chat: InteractiveSession)
    requires
        chat.session.messages@.len() > 0,
    ensures
        forall|i: int|
            0 <= i < chat.save_told(0).len() ==> (#[trigger] chat.save_told(0)[i]) is Error,
{
}

} // verus!
