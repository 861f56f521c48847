//! The slash commands of the chat: what each does to the session, and what is
//! left to be done.

use crate::chat::context::{
    add_files, added_notice, file_paths, removal_notice, remove_files, Files,
};
#[allow(unused_imports)]
use crate::chat::context::{merged, paths, removal_told, without};
use crate::chat::interactive::InteractiveSession;
#[allow(unused_imports)]
use crate::chat::interactive::{ends_in_answer, ends_in_prompt};
use crate::chat::notice::Notice;
#[allow(unused_imports)]
use crate::chat::notice::{told, Told};
use crate::chat::provider::{effort_request, handle_tools_command, EffortRequest};
#[allow(unused_imports)]
use crate::chat::provider::{means_default, tools_told, ChatState};
#[allow(unused_imports)]
use crate::session::model::{Message, Session};
use crate::session::model::copy_text;
use crate::session::sessions_service::clear_unsent_messages;
use crate::session::tables::Write;
#[allow(unused_imports)]
use crate::session::tables::{optional_text, Change};
use crate::text::{concat, decimal_text, join};
#[allow(unused_imports)]
use crate::text::{decimal, joined, lowercase, lowers_plainly, texts};
use vstd::prelude::*;

verus! {

/// A slash command.
#[derive(Debug)]
pub enum ChatCommand {
    Help,
    Commands,
    Save(Option<String>),
    Sessions,
    Unsent,
    Context,
    Clear,
    Exit,
    Quit,
    Retry,
    Branch(Option<String>),
    AddContext(String),
    RemoveContext(String),
    Model(Option<String>),
    Provider(Option<String>),
    Effort(Option<String>),
    Tools(Option<bool>),
    Status,
    Theme(Option<String>),
    Streaming(Option<bool>),
    Settings,
}

/// How many sessions `/sessions` lists.
pub const RECENT_SESSIONS: usize = 10;

/// Something that is left to be done after a command.
#[derive(Debug)]
pub enum Effect {
    Say(Notice),
    /// Print a line without formatting.
    Print(String),
    ShowHelp,
    ShowPalette,
    ShowWelcome,
    ShowStatus,
    ShowModels,
    ShowContext(Vec<String>),
    ShowSettings(Settings),
    ShowUnsent,
    ListSessions(usize),
    ListThemes,
    ClearScreen,
    /// Write this; a failure is not reported.
    Discard(Write),
    /// Have this prompt answered.
    Ask(String),
    SaveAs(Option<String>),
    AddContext(String),
    SwitchModel(String),
    SwitchProvider(String),
    SetEffort(EffortRequest),
    SetTheme(String),
    SetStreaming(bool),
}

/// What the settings overview shows.
#[derive(Debug)]
pub struct Settings {
    pub provider: String,
    pub model: String,
    pub tools_enabled: bool,
    pub streaming: bool,
    pub context_files: usize,
    pub session: String,
}

/// What is left to be done, by its texts.
pub enum Deed {
    Say(Told),
    Print(Seq<char>),
    ShowHelp,
    ShowPalette,
    ShowWelcome,
    ShowStatus,
    ShowModels,
    ShowContext(Seq<Seq<char>>),
    ShowSettings(Seq<char>, Seq<char>, bool, bool, int, Seq<char>),
    ShowUnsent,
    ListSessions(int),
    ListThemes,
    ClearScreen,
    Discard(Change),
    Ask(Seq<char>),
    SaveAs(Option<Seq<char>>),
    AddContext(Seq<char>),
    SwitchModel(Seq<char>),
    SwitchProvider(Seq<char>),
    ShowEffort,
    ResetEffort,
    SetEffort(Seq<char>),
    SetTheme(Seq<char>),
    SetStreaming(bool),
}

impl View for Effect {
    type V = Deed;

    open spec fn view(&self) -> Deed {
        match self {
            Effect::Say(n) => Deed::Say(n@),
            Effect::Print(s) => Deed::Print(s@),
            Effect::ShowHelp => Deed::ShowHelp,
            Effect::ShowPalette => Deed::ShowPalette,
            Effect::ShowWelcome => Deed::ShowWelcome,
            Effect::ShowStatus => Deed::ShowStatus,
            Effect::ShowModels => Deed::ShowModels,
            Effect::ShowContext(list) => Deed::ShowContext(texts(list@)),
            Effect::ShowSettings(s) => Deed::ShowSettings(
                s.provider@,
                s.model@,
                s.tools_enabled,
                s.streaming,
                s.context_files as int,
                s.session@,
            ),
            Effect::ShowUnsent => Deed::ShowUnsent,
            Effect::ListSessions(n) => Deed::ListSessions(*n as int),
            Effect::ListThemes => Deed::ListThemes,
            Effect::ClearScreen => Deed::ClearScreen,
            Effect::Discard(w) => Deed::Discard(w@),
            Effect::Ask(s) => Deed::Ask(s@),
            Effect::SaveAs(name) => Deed::SaveAs(optional_text(*name)),
            Effect::AddContext(s) => Deed::AddContext(s@),
            Effect::SwitchModel(s) => Deed::SwitchModel(s@),
            Effect::SwitchProvider(s) => Deed::SwitchProvider(s@),
            Effect::SetEffort(EffortRequest::Show) => Deed::ShowEffort,
            Effect::SetEffort(EffortRequest::Reset) => Deed::ResetEffort,
            Effect::SetEffort(EffortRequest::Parse(s)) => Deed::SetEffort(s@),
            Effect::SetTheme(s) => Deed::SetTheme(s@),
            Effect::SetStreaming(on) => Deed::SetStreaming(*on),
        }
    }
}

/// What a list of effects comes to.
pub open spec fn deeds(list: Seq<Effect>) -> Seq<Deed> {
    list.map_values(|e: Effect| e@)
}

// ---------------------------------------------------------------------
// What each command does
// ---------------------------------------------------------------------

/// `/branch` in words.
pub open spec fn branch_words(session: Seq<char>, name: Option<Seq<char>>) -> Seq<char> {
    "🌿 /branch is not available inside chat yet.\n   Save this conversation, then run: termai sessions branch "@
        + session + match name {
        Some(n) => " --name "@ + n,
        None => ""@,
    }
}

/// What `/branch` comes to.
pub open spec fn branch_deeds(session: Session, name: Option<Seq<char>>) -> Seq<Deed> {
    seq![
        Deed::Say(Told::Success(branch_words(session.name@, name))),
        Deed::Print("  📋 Branch would include:"@),
        Deed::Print(
            "     • "@ + decimal(session.messages@.len())
                + " messages from current conversation"@,
        ),
        Deed::Print("     • Full conversation context preserved"@),
        Deed::Print("     • Ready for exploring alternative approaches"@),
        Deed::Say(
            Told::Warning(
                "⚠️  Branch creation temporarily disabled - requires mutable database access"@,
            ),
        ),
    ]
}

/// What `/retry` comes to.
pub open spec fn retry_deeds(messages: Seq<Message>) -> Seq<Deed> {
    if messages.len() == 0 {
        seq![Deed::Say(Told::Warning("No previous message to retry"@))]
    } else if !ends_in_answer(messages) {
        seq![Deed::Say(Told::Warning("No AI response to retry"@))]
    } else if ends_in_prompt(messages.drop_last()) {
        seq![Deed::Ask(messages.drop_last().last().content@)]
    } else {
        Seq::empty()
    }
}

/// What `/streaming` comes to.
pub open spec fn streaming_deeds(setting: Option<bool>) -> Seq<Deed> {
    match setting {
        Some(enabled) => seq![
            Deed::SetStreaming(enabled),
            Deed::Say(
                Told::Success(
                    "Streaming output "@ + (if enabled {
                        "enabled"@
                    } else {
                        "disabled"@
                    }),
                ),
            ),
        ],
        None => seq![
            Deed::Say(
                Told::Text(
                    "Usage: /streaming on  - enable streaming output\n       /streaming off - disable streaming output"@,
                ),
            ),
        ],
    }
}

/// What `/effort` comes to.
pub open spec fn effort_deed(value: Option<String>) -> Deed {
    match value {
        None => Deed::ShowEffort,
        Some(v) => if means_default(lowercase(v@)) {
            Deed::ResetEffort
        } else {
            Deed::SetEffort(lowercase(v@))
        },
    }
}

/// Whether tools are on after `/tools`.
pub open spec fn tools_after(enabled: bool, setting: Option<bool>) -> bool {
    match setting {
        Some(on) => on,
        None => !enabled,
    }
}

/// What a command comes to.
pub open spec fn command_deeds(chat: InteractiveSession, command: ChatCommand) -> Seq<Deed> {
    match command {
        ChatCommand::Help => seq![Deed::ShowHelp],
        ChatCommand::Commands => seq![Deed::ShowPalette],
        ChatCommand::Save(name) => seq![Deed::SaveAs(optional_text(name))],
        ChatCommand::Sessions => seq![Deed::ListSessions(RECENT_SESSIONS as int)],
        ChatCommand::Unsent => seq![Deed::ShowUnsent],
        ChatCommand::Context => seq![Deed::ShowContext(paths(chat.context_files@))],
        ChatCommand::Clear => (if chat.session.temporary {
            Seq::empty()
        } else {
            seq![Deed::Discard(Change::DiscardPending(chat.session.id@))]
        }) + seq![Deed::ClearScreen, Deed::ShowWelcome, Deed::Say(Told::Cleared)],
        ChatCommand::Exit | ChatCommand::Quit => Seq::empty(),
        ChatCommand::Retry => retry_deeds(chat.session.messages@),
        ChatCommand::Branch(name) => branch_deeds(chat.session, optional_text(name)),
        ChatCommand::AddContext(path) => seq![Deed::AddContext(path@)],
        ChatCommand::RemoveContext(path) => {
            let left = without(chat.context_files@, path@);
            if left.len() < chat.context_files@.len() {
                seq![Deed::Say(removal_told(true, path@)), Deed::ShowContext(paths(left))]
            } else {
                seq![Deed::Say(removal_told(false, path@))]
            }
        },
        ChatCommand::Model(name) => match name {
            Some(model) => seq![Deed::SwitchModel(model@)],
            None => seq![Deed::ShowStatus, Deed::Print(""@), Deed::ShowModels],
        },
        ChatCommand::Provider(name) => match name {
            Some(provider) => seq![Deed::SwitchProvider(provider@)],
            None => seq![Deed::ShowStatus],
        },
        ChatCommand::Effort(value) => seq![effort_deed(value)],
        ChatCommand::Tools(setting) => seq![
            Deed::Say(
                tools_told(
                    tools_after(chat.chat_state.tools_enabled, setting),
                    chat.chat_state.provider@,
                ),
            ),
        ],
        ChatCommand::Status => seq![Deed::ShowStatus],
        ChatCommand::Theme(name) => match name {
            Some(theme) => seq![Deed::SetTheme(theme@)],
            None => seq![Deed::ListThemes],
        },
        ChatCommand::Streaming(setting) => streaming_deeds(setting),
        ChatCommand::Settings => seq![
            Deed::ShowSettings(
                chat.chat_state.provider@,
                chat.chat_state.model@,
                chat.chat_state.tools_enabled,
                true,
                chat.context_files@.len() as int,
                chat.session.name@,
            ),
        ],
    }
}

/// The messages of the session after a command.
pub open spec fn messages_after(messages: Seq<Message>, command: ChatCommand) -> Seq<Message> {
    match command {
        ChatCommand::Clear => Seq::empty(),
        ChatCommand::Retry => if ends_in_answer(messages) {
            messages.drop_last()
        } else {
            messages
        },
        _ => messages,
    }
}

/// The files of the context after a command.
pub open spec fn files_after(files: Seq<Files>, command: ChatCommand) -> Seq<Files> {
    match command {
        ChatCommand::RemoveContext(path) => without(files, path@),
        _ => files,
    }
}

fn branch_effects(session: &Session, name: &Option<String>) -> (r: Vec<Effect>)
    ensures
        deeds(r@) == branch_deeds(*session, optional_text(*name)),
{
    let option = match name {
        Some(n) => concat(" --name ", n.as_str()),
        None => "".to_owned(),
    };
    let start = concat(
        "🌿 /branch is not available inside chat yet.\n   Save this conversation, then run: termai sessions branch ",
        session.name.as_str(),
    );
    let count = concat("     • ", decimal_text(session.messages.len() as u64).as_str());
    let mut r: Vec<Effect> = Vec::new();
    r.push(Effect::Say(Notice::Success(concat(start.as_str(), option.as_str()))));
    r.push(Effect::Print("  📋 Branch would include:".to_owned()));
    r.push(Effect::Print(concat(count.as_str(), " messages from current conversation")));
    r.push(Effect::Print("     • Full conversation context preserved".to_owned()));
    r.push(Effect::Print("     • Ready for exploring alternative approaches".to_owned()));
    r.push(
        Effect::Say(
            Notice::Warning(
                "⚠️  Branch creation temporarily disabled - requires mutable database access".to_owned(),
            ),
        ),
    );
    assert(deeds(r@) =~= branch_deeds(*session, optional_text(*name)));
    r
}

impl InteractiveSession {
    /// Handle slash commands
    pub fn handle_command(&mut self, command: &ChatCommand) -> (r: Vec<Effect>)
        ensures
            deeds(r@) == command_deeds(*old(self), *command),
            final(self).session.messages@ == messages_after(
                old(self).session.messages@,
                *command,
            ),
            final(self).context_files@ == files_after(old(self).context_files@, *command),
            *final(self) == (InteractiveSession {
                session: Session { messages: final(self).session.messages, ..old(self).session },
                context_files: final(self).context_files,
                should_exit: old(self).should_exit || *command is Exit || *command is Quit,
                chat_state: ChatState {
                    tools_enabled: match *command {
                        ChatCommand::Tools(setting) => tools_after(
                            old(self).chat_state.tools_enabled,
                            setting,
                        ),
                        _ => old(self).chat_state.tools_enabled,
                    },
                    ..old(self).chat_state
                },
                ..*old(self)
            }),
            *command matches ChatCommand::Effort(Some(value)) ==> lowers_plainly(value@),
    {
        let ghost want = command_deeds(*self, *command);
        let mut r: Vec<Effect> = Vec::new();
        match command {
            ChatCommand::Help => {
                r.push(Effect::ShowHelp);
            },
            ChatCommand::Commands => {
                r.push(Effect::ShowPalette);
            },
            ChatCommand::Save(name) => {
                r.push(Effect::SaveAs(copy_text(name)));
            },
            ChatCommand::Sessions => {
                r.push(Effect::ListSessions(RECENT_SESSIONS));
            },
            ChatCommand::Unsent => {
                r.push(Effect::ShowUnsent);
            },
            ChatCommand::Context => {
                r.push(Effect::ShowContext(file_paths(&self.context_files)));
            },
            ChatCommand::Clear => {
                self.session.messages.clear();
                // Drafts left over from interrupted turns belong to the
                // conversation the user just cleared.
                if let Some(write) = clear_unsent_messages(&self.session) {
                    r.push(Effect::Discard(write));
                }
                r.push(Effect::ClearScreen);
                r.push(Effect::ShowWelcome);
                r.push(Effect::Say(Notice::Cleared));
            },
            ChatCommand::Exit | ChatCommand::Quit => {
                self.should_exit = true;
            },
            ChatCommand::Retry => {
                let count = self.session.messages.len();
                if count == 0 {
                    r.push(
                        Effect::Say(Notice::Warning("No previous message to retry".to_owned())),
                    );
                } else if !self.session.messages[count - 1].role.is_assistant() {
                    r.push(Effect::Say(Notice::Warning("No AI response to retry".to_owned())));
                } else if let Some(content) = self.take_back_answer() {
                    r.push(Effect::Ask(content));
                }
            },
            ChatCommand::Branch(name) => {
                r = branch_effects(&self.session, name);
            },
            ChatCommand::AddContext(path) => {
                r.push(Effect::AddContext(path.clone()));
            },
            ChatCommand::RemoveContext(path) => {
                let removed = remove_files(&mut self.context_files, path.as_str());
                r.push(Effect::Say(removal_notice(removed, path.as_str())));
                if removed {
                    r.push(Effect::ShowContext(file_paths(&self.context_files)));
                }
            },
            ChatCommand::Model(name) => match name {
                Some(model) => {
                    r.push(Effect::SwitchModel(model.clone()));
                },
                None => {
                    r.push(Effect::ShowStatus);
                    r.push(Effect::Print("".to_owned()));
                    r.push(Effect::ShowModels);
                },
            },
            ChatCommand::Provider(name) => match name {
                Some(provider) => {
                    r.push(Effect::SwitchProvider(provider.clone()));
                },
                None => {
                    r.push(Effect::ShowStatus);
                },
            },
            ChatCommand::Effort(value) => {
                r.push(Effect::SetEffort(effort_request(value)));
            },
            ChatCommand::Tools(setting) => {
                r.push(Effect::Say(handle_tools_command(&mut self.chat_state, *setting)));
            },
            ChatCommand::Status => {
                r.push(Effect::ShowStatus);
            },
            ChatCommand::Theme(name) => match name {
                Some(theme) => {
                    r.push(Effect::SetTheme(theme.clone()));
                },
                None => {
                    r.push(Effect::ListThemes);
                },
            },
            ChatCommand::Streaming(setting) => match setting {
                Some(enabled) => {
                    r.push(Effect::SetStreaming(*enabled));
                    let status = if *enabled {
                        "enabled"
                    } else {
                        "disabled"
                    };
                    r.push(Effect::Say(Notice::Success(concat("Streaming output ", status))));
                },
                None => {
                    r.push(
                        Effect::Say(
                            Notice::Text(
                                "Usage: /streaming on  - enable streaming output\n       /streaming off - disable streaming output".to_owned(),
                            ),
                        ),
                    );
                },
            },
            ChatCommand::Settings => {
                r.push(
                    Effect::ShowSettings(
                        Settings {
                            provider: self.chat_state.provider.clone(),
                            model: self.chat_state.model.clone(),
                            tools_enabled: self.chat_state.tools_enabled,
                            streaming: true,
                            context_files: self.context_files.len(),
                            session: self.session.name.clone(),
                        },
                    ),
                );
            },
        }
        assert(deeds(r@) =~= want);
        r
    }

    /// Add the files that were found under a path to the context.
    pub fn add_context_path(&mut self, path: &str, found: &Vec<Files>) -> (r: Vec<Effect>)
        ensures
            final(self).context_files@ == merged(old(self).context_files@, found@),
            *final(self) == (InteractiveSession {
                context_files: final(self).context_files,
                ..*old(self)
            }),
            deeds(r@) == seq![
                Deed::Say(Told::Success("Added '"@ + path@ + "' to context"@)),
                Deed::ShowContext(paths(final(self).context_files@)),
            ],
    {
        add_files(&mut self.context_files, found);
        let mut r: Vec<Effect> = Vec::new();
        r.push(Effect::Say(added_notice(path)));
        r.push(Effect::ShowContext(file_paths(&self.context_files)));
        assert(deeds(r@) =~= seq![
            Deed::Say(Told::Success("Added '"@ + path@ + "' to context"@)),
            Deed::ShowContext(paths(self.context_files@)),
        ]);
        r
    }
}

// ---------------------------------------------------------------------
// Themes and switches
// ---------------------------------------------------------------------

/// What is told after a theme was asked for: `refused` is the formatter's
/// error, if there is no such theme.
pub fn handle_theme_command(name: &str, refused: &Option<String>, themes: &Vec<String>) -> (r: Vec<
    Notice,
>)
    ensures
        told(r@) == match refused {
            None => seq![Told::Success("Switched to '"@ + name@ + "' theme"@)],
            Some(error) => seq![
                Told::Error(error@),
                Told::Text("Available themes: "@ + joined(texts(themes@), ", "@)),
            ],
        },
{
    let mut r: Vec<Notice> = Vec::new();
    match refused {
        None => {
            r.push(Notice::Success(concat(concat("Switched to '", name).as_str(), "' theme")));
            assert(told(r@) =~= seq![Told::Success("Switched to '"@ + name@ + "' theme"@)]);
        },
        Some(error) => {
            r.push(Notice::Error(error.clone()));
            r.push(Notice::Text(concat("Available themes: ", join(themes, ", ").as_str())));
            assert(told(r@) =~= seq![
                Told::Error(error@),
                Told::Text("Available themes: "@ + joined(texts(themes@), ", "@)),
            ]);
        },
    }
    r
}

/// What `/theme` without a name tells.
pub fn themes_notice(themes: &Vec<String>) -> (r: Notice)
    ensures
        r@ == Told::Text(
            "Available themes: "@ + joined(texts(themes@), ", "@)
                + "\nUse '/theme <name>' to switch"@,
        ),
{
    let start = concat("Available themes: ", join(themes, ", ").as_str());
    Notice::Text(concat(start.as_str(), "\nUse '/theme <name>' to switch"))
}

/// What is told after a switch of the model or the provider, and whether the
/// configuration has to follow.
pub fn switched(outcome: &Result<String, String>) -> (r: (Notice, bool))
    ensures
        match outcome {
            Ok(message) => r.0@ == Told::Success(message@) && r.1,
            Err(error) => r.0@ == Told::Error(error@) && !r.1,
        },
{
    match outcome {
        Ok(message) => (Notice::Success(message.clone()), true),
        Err(error) => (Notice::Error(error.clone()), false),
    }
}

// ---------------------------------------------------------------------
// Laws
// ---------------------------------------------------------------------

/// A command that is neither `/clear` nor `/retry` leaves the conversation as
/// it is, and only those about the context touch its files.
pub proof fn other_commands_keep_the_conversation(
    chat: InteractiveSession,
    command: ChatCommand,
)
    requires
        !(command is Clear),
        !(command is Retry),
    ensures
        messages_after(chat.session.messages@, command) == chat.session.messages@,
        !(command is RemoveContext) ==> files_after(chat.context_files@, command)
            == chat.context_files@,
{
}

/// Only `/clear` discards unanswered prompts, and never those of a temporary
/// chat, which has none.
pub proof fn only_clearing_discards_prompts(
    chat: InteractiveSession,
    command: ChatCommand,
    i: int,
)
    requires
        0 <= i < command_deeds(chat, command).len(),
        command_deeds(chat, command)[i] is Discard,
    ensures
        command is Clear,
        !chat.session.temporary,
        command_deeds(chat, command)[i] == Deed::Discard(
            Change::DiscardPending(chat.session.id@),
        ),
{
}

} // verus!
