//! What the chat does and tells, in terms of what was typed, set and stored.

#[allow(unused_imports)]
use crate::chat::anchor_ui::{AnchorUi, PaletteItem};
#[allow(unused_imports)]
use crate::chat::commands::{
    command_deeds, deeds, files_after, messages_after, tools_after, ChatCommand, Deed, Effect,
};
#[allow(unused_imports)]
use crate::chat::context::{paths, without};
#[allow(unused_imports)]
use crate::chat::input_laws::lemma_in_between;
#[allow(unused_imports)]
use crate::chat::interactive::{
    ends_in_answer, ends_in_prompt, first_prompt, total_chars, unsent_told, InteractiveSession,
    Mode,
};
#[allow(unused_imports)]
use crate::chat::naming::{auto_name, slug};
#[allow(unused_imports)]
use crate::chat::notice::{told, Notice, Told};
#[allow(unused_imports)]
use crate::chat::provider::{
    effort_after, effort_told, means_default, provider_named, tools_told, ChatState,
    EffortRequest, ParsedEffort, SettingsProvider,
};
#[allow(unused_imports)]
use crate::chat::turn::{
    after_turn, anchored_ending, answered, course, leaving, plain_ending, taken_back, unpinned,
    Course, TurnEffect, TurnOutcome,
};
#[allow(unused_imports)]
use crate::session::model::{Message, Role};
#[allow(unused_imports)]
use crate::session::tables::Change;
#[allow(unused_imports)]
use crate::text::{begins_with, decimal, has_part, lowercase, occurs_at, signed_decimal, texts};
use vstd::prelude::*;

verus! {

// ---------------------------------------------------------------------
// Messages
// ---------------------------------------------------------------------

/// A conversation ends in a prompt, or in an answer, when its last message is
/// the user's, or the assistant's.
pub proof fn the_last_message_tells_how_a_conversation_ends(messages: Seq<Message>)
    ensures
        ends_in_prompt(messages) <==> messages.len() > 0 && messages[messages.len() - 1].role
            == Role::User,
        ends_in_answer(messages) <==> messages.len() > 0 && messages[messages.len() - 1].role
            == Role::Assistant,
{
}

/// The first prompt of a conversation is the user's first message, whatever
/// stands before it.
pub proof fn the_first_prompt_is_the_first_of_the_user(messages: Seq<Message>)
    ensures
        match first_prompt(messages) {
            Some(m) => exists|i: int|
                0 <= i < messages.len() && #[trigger] messages[i] == m && m.role == Role::User
                    && forall|j: int| 0 <= j < i ==> (#[trigger] messages[j]).role != Role::User,
            None => forall|j: int|
                0 <= j < messages.len() ==> (#[trigger] messages[j]).role != Role::User,
        },
    decreases messages.len(),
{
    if messages.len() > 0 {
        let rest = messages.skip(1);
        if messages[0].role == Role::User {
            assert(messages[0] == first_prompt(messages)->0);
        } else {
            the_first_prompt_is_the_first_of_the_user(rest);
            match first_prompt(rest) {
                Some(m) => {
                    let i = choose|i: int|
                        0 <= i < rest.len() && #[trigger] rest[i] == m && m.role == Role::User
                            && forall|j: int|
                            0 <= j < i ==> (#[trigger] rest[j]).role != Role::User;
                    assert(messages[i + 1] == m);
                    assert forall|j: int| 0 <= j < i + 1 implies (#[trigger] messages[j]).role
                        != Role::User by {
                        if j > 0 {
                            assert(rest[j - 1] == messages[j]);
                        }
                    }
                },
                None => {
                    assert forall|j: int| 0 <= j < messages.len() implies (
                    #[trigger] messages[j]).role != Role::User by {
                        if j > 0 {
                            assert(rest[j - 1] == messages[j]);
                        }
                    }
                },
            }
        }
    }
}

/// The characters of a conversation are those of its messages, added up.
pub proof fn the_characters_add_up(a: Seq<Message>, b: Seq<Message>, m: Message)
    ensures
        total_chars(Seq::<Message>::empty()) == 0,
        total_chars(seq![m]) == m.content@.len(),
        total_chars(a + b) == total_chars(a) + total_chars(b),
    decreases b.len(),
{
    assert(seq![m].drop_last() =~= Seq::<Message>::empty());
    assert(total_chars(seq![m].drop_last()) == 0);
    if b.len() == 0 {
        assert(a + b =~= a);
    } else {
        the_characters_add_up(a, b.drop_last(), m);
        assert((a + b).drop_last() =~= a + b.drop_last());
        assert((a + b).last() == b.last());
    }
}

/// A conversation gets a new name only when it is kept and its name was made
/// up, and then after the user's first message: the day, a hyphen and the slug
/// of that message. Without one there is no new name.
pub proof fn a_conversation_is_named_after_its_first_prompt(
    chat: InteractiveSession,
    today: Seq<char>,
    i: int,
)
    ensures
        chat.session.temporary ==> chat.new_name(today) is None,
        !auto_name(chat.session.name@) ==> chat.new_name(today) is None,
        (forall|j: int|
            0 <= j < chat.session.messages@.len() ==> (
            #[trigger] chat.session.messages@[j]).role != Role::User) ==> chat.new_name(
            today,
        ) is None,
        !chat.session.temporary && auto_name(chat.session.name@) && 0 <= i
            < chat.session.messages@.len() && chat.session.messages@[i].role == Role::User && (
        forall|j: int| 0 <= j < i ==> (#[trigger] chat.session.messages@[j]).role != Role::User)
            ==> (match slug(chat.session.messages@[i].content@) {
            Some(s) => chat.new_name(today) == Some(today + seq!['-'] + s),
            None => chat.new_name(today) is None,
        }),
{
    reveal_strlit("-");
    assert("-"@ =~= seq!['-']);
    let messages = chat.session.messages@;
    the_first_prompt_is_the_first_of_the_user(messages);
    if let Some(m) = first_prompt(messages) {
        let k = choose|k: int|
            0 <= k < messages.len() && #[trigger] messages[k] == m && m.role == Role::User
                && forall|j: int| 0 <= j < k ==> (#[trigger] messages[j]).role != Role::User;
        if 0 <= i < messages.len() && messages[i].role == Role::User && forall|j: int|
            0 <= j < i ==> (#[trigger] messages[j]).role != Role::User {
            if i < k {
                assert(messages[i].role != Role::User);
            } else if k < i {
                assert(messages[k].role != Role::User);
            }
        }
    }
}

// ---------------------------------------------------------------------
// What is told
// ---------------------------------------------------------------------

/// On the way out the chat tells how many messages were found stored and under
/// which name; that none was found, or that this is not known, is an error.
pub proof fn leaving_tells_what_was_found(chat: InteractiveSession, stored: Result<i64, String>)
    ensures
        stored matches Ok(n) ==> {
            &&& n > 0 ==> (chat.exit_told(stored) matches Told::Success(t) && has_part(
                t,
                signed_decimal(n as int),
            ) && has_part(t, chat.session.name@))
            &&& n <= 0 ==> chat.exit_told(stored) is Error
        },
        stored matches Err(e) ==> (chat.exit_told(stored) matches Told::Error(t) && has_part(t, e@)),
{
    match stored {
        Ok(n) => {
            let name = chat.session.name@;
            let number = signed_decimal(n as int);
            let start = "Saved "@ + number + " messages to '"@;
            let end = "' — resume with: termai chat --session "@;
            lemma_in_between("Saved "@, number, " messages to '"@ + name + end + name);
            assert("Saved "@ + number + (" messages to '"@ + name + end + name) =~= "Saved "@ + number
                + " messages to '"@ + name + end + name);
            lemma_in_between(start, name, end + name);
            assert(start + name + (end + name) =~= start + name + end + name);
        },
        Err(e) => {
            lemma_in_between("Could not verify the save: "@, e@, Seq::empty());
            assert("Could not verify the save: "@ + e@ + Seq::<char>::empty()
                =~= "Could not verify the save: "@ + e@);
        },
    }
}

/// `/save` tells the name and how many messages are stored, unless a
/// conversation that has messages was found to have none stored.
pub proof fn saving_tells_what_was_found(chat: InteractiveSession, stored: int)
    ensures
        stored == 0 && chat.session.messages@.len() > 0 ==> chat.save_told(stored).len() == 1
            && chat.save_told(stored)[0] is Error,
        stored != 0 || chat.session.messages@.len() == 0 ==> {
            &&& chat.save_told(stored).len() == 2
            &&& chat.save_told(stored)[0] == Told::Saved(chat.session.name@)
            &&& chat.save_told(stored)[1] matches Told::Success(t) && begins_with(
                t,
                signed_decimal(stored),
            ) && has_part(t, chat.session.name@)
        },
{
    let number = signed_decimal(stored);
    let middle = " messages stored — resume with: termai chat --session "@;
    let name = chat.session.name@;
    let whole = number + middle + name;
    lemma_in_between(number + middle, name, Seq::empty());
    assert(number + middle + name + Seq::<char>::empty() =~= whole);
    assert(whole.subrange(0, number.len() as int) =~= number);
    assert(occurs_at(whole, number, 0));
}

/// `/unsent` tells how many prompts have no answer, and then each of them, in
/// order and whole.
pub proof fn every_unsent_prompt_is_told(unsent: Seq<Seq<char>>, i: int)
    requires
        0 <= i < unsent.len(),
    ensures
        unsent_told(unsent).len() == unsent.len() + 1,
        unsent_told(unsent)[0] matches Told::Warning(t) && begins_with(t, decimal(unsent.len())),
        unsent_told(unsent)[1 + i] == Told::Text(seq!['\n'] + unsent[i] + seq!['\n']),
{
    reveal_strlit("\n");
    assert("\n"@ =~= seq!['\n']);
    let number = decimal(unsent.len());
    let whole = number + " message(s) never got a reply:"@;
    assert(whole.subrange(0, number.len() as int) =~= number);
    assert(occurs_at(whole, number, 0));
}

/// Without such a prompt `/unsent` says that there is none.
pub proof fn that_nothing_is_unsent_is_told()
    ensures
        unsent_told(Seq::<Seq<char>>::empty()).len() == 1,
        unsent_told(Seq::<Seq<char>>::empty())[0] is Success,
{
}

// ---------------------------------------------------------------------
// Provider and effort
// ---------------------------------------------------------------------

/// The effort that was set for the session is in force, and the configured one
/// only where none was.
pub proof fn the_effort_of_the_session_comes_first(
    state: ChatState,
    configured: Option<String>,
)
    ensures
        state.reasoning_effort is Some ==> state.effort(configured) == state.reasoning_effort,
        state.reasoning_effort is None ==> state.effort(configured) == configured,
{
}

/// A name that is none of those of the providers stands for none.
pub proof fn other_names_stand_for_no_provider(name: Seq<char>, claude: Seq<char>)
    ensures
        provider_named(name, claude) is None <==> name != claude && name != "openai"@ && name
            != "codex"@ && name != "openai-codex"@ && name != "openai_codex"@,
        provider_named(name, claude) == Some(SettingsProvider::Openai) ==> name == "openai"@,
        provider_named(name, claude) == Some(SettingsProvider::Claude) ==> name == claude,
{
}

/// Three words mean the default effort.
pub proof fn three_words_mean_the_default(value: Seq<char>)
    ensures
        means_default(value) <==> value == "default"@ || value == "clear"@ || value == "unset"@,
{
}

/// `/effort` without a value changes nothing and tells the effort in force.
pub proof fn showing_the_effort_changes_nothing(
    state: ChatState,
    configured: Option<String>,
    parsed: Option<ParsedEffort>,
)
    ensures
        effort_after(state, EffortRequest::Show, parsed) == state.reasoning_effort,
        effort_told(state, EffortRequest::Show, configured, parsed).len() == 1,
        ({
            let t = effort_told(state, EffortRequest::Show, configured, parsed)[0];
            &&& t is Text
            &&& state.reasoning_effort matches Some(e) ==> has_part(t->Text_0, e@)
            &&& state.reasoning_effort is None && configured is Some ==> has_part(
                t->Text_0,
                configured->0@,
            )
            &&& state.reasoning_effort is None && configured is None ==> has_part(
                t->Text_0,
                "default (provider default)"@,
            )
        }),
{
    let current = match state.effort(configured) {
        Some(effort) => effort@,
        None => "default (provider default)"@,
    };
    let valid = crate::chat::provider::VALID_EFFORTS@;
    let end = "\n   Valid values: "@ + valid + " (or 'default' to clear)"@;
    lemma_in_between("🧠 Reasoning effort: "@, current, end);
    assert("🧠 Reasoning effort: "@ + current + end =~= "🧠 Reasoning effort: "@ + current
        + "\n   Valid values: "@ + valid + " (or 'default' to clear)"@);
}

/// `/effort` with the default takes back what was set.
pub proof fn resetting_the_effort_takes_it_back(
    state: ChatState,
    configured: Option<String>,
    parsed: Option<ParsedEffort>,
)
    ensures
        effort_after(state, EffortRequest::Reset, parsed) is None,
        effort_told(state, EffortRequest::Reset, configured, parsed).len() == 1,
        effort_told(state, EffortRequest::Reset, configured, parsed)[0] is Success,
{
}

/// `/effort` with a value sets it as it was understood, warns of it first
/// where there is a warning, and tells what was set. One that is not
/// understood changes nothing, and is named in a warning.
pub proof fn an_effort_is_set_as_it_was_understood(
    state: ChatState,
    value: String,
    configured: Option<String>,
    parsed: Option<ParsedEffort>,
)
    ensures
        ({
            let request = EffortRequest::Parse(value);
            let list = effort_told(state, request, configured, parsed);
            match parsed {
                Some(p) => {
                    &&& effort_after(state, request, parsed) == Some(p.effort)
                    &&& list.last() matches Told::Success(t) && has_part(t, p.effort@)
                    &&& p.warning matches Some(w) ==> list.len() == 2 && list[0] == Told::Warning(w@)
                    &&& p.warning is None ==> list.len() == 1
                },
                None => {
                    &&& effort_after(state, request, parsed) == state.reasoning_effort
                    &&& list.len() == 1
                    &&& list[0] matches Told::Warning(t) && has_part(t, value@)
                },
            }
        }),
{
    match parsed {
        Some(p) => {
            lemma_in_between("Reasoning effort set to "@, p.effort@, " for this session"@);
        },
        None => {
            let valid = crate::chat::provider::VALID_EFFORTS@;
            let start = "Invalid reasoning effort '"@;
            lemma_in_between(start, value@, "'. Valid values: "@ + valid);
            assert(start + value@ + ("'. Valid values: "@ + valid) =~= start + value@
                + "'. Valid values: "@ + valid);
        },
    }
}

/// `/tools` tells whether tools are on, and adds a note that ends in the name
/// of the provider where that is not the one that has tools.
pub proof fn the_tools_are_told_as_they_are(enabled: bool, provider: Seq<char>)
    ensures
        tools_told(enabled, provider) is Success,
        begins_with(
            tools_told(enabled, provider)->Success_0,
            "Tools are now "@ + (if enabled {
                "enabled"@
            } else {
                "disabled"@
            }),
        ),
        provider != "openai"@ ==> {
            let words = tools_told(enabled, provider)->Success_0;
            let short = tools_told(enabled, "openai"@)->Success_0;
            &&& words.len() > short.len() + provider.len()
            &&& words.take(short.len() as int) == short
            &&& words.skip(words.len() - provider.len()) == provider
        },
{
    let words = tools_told(enabled, provider)->Success_0;
    let short = tools_told(enabled, "openai"@)->Success_0;
    let state = if enabled {
        "enabled"@
    } else {
        "disabled"@
    };
    let start = "Tools are now "@ + state;
    assert(words.subrange(0, start.len() as int) =~= start);
    assert(occurs_at(words, start, 0));
    if provider != "openai"@ {
        reveal_strlit(
            "\n⚠️  Note: Tools are only supported with the OpenAI provider. Current provider: ",
        );
        reveal_strlit("");
        assert(words.take(short.len() as int) =~= short);
        assert(words.skip(words.len() - provider.len()) =~= provider);
    }
}

// ---------------------------------------------------------------------
// Commands
// ---------------------------------------------------------------------

/// `/retry` asks the prompt before the last answer again, and takes that answer
/// and nothing else back; where the last message is no answer it says so and
/// leaves the conversation as it is.
pub proof fn a_retry_asks_the_last_prompt_again(chat: InteractiveSession)
    ensures
        ({
            let messages = chat.session.messages@;
            let n = messages.len() as int;
            let deeds = command_deeds(chat, ChatCommand::Retry);
            let after = messages_after(messages, ChatCommand::Retry);
            if n > 0 && messages[n - 1].role == Role::Assistant {
                &&& after.len() == n - 1
                &&& forall|i: int| 0 <= i < n - 1 ==> #[trigger] after[i] == messages[i]
                &&& n > 1 && messages[n - 2].role == Role::User ==> deeds.len() == 1 && deeds[0]
                    == Deed::Ask(messages[n - 2].content@)
                &&& n == 1 || messages[n - 2].role != Role::User ==> deeds.len() == 0
            } else {
                &&& after == messages
                &&& deeds.len() == 1
                &&& deeds[0] matches Deed::Say(t) && t is Warning
            }
        }),
{
}

/// `/clear` empties the conversation and keeps its files; drafts that were
/// never answered are discarded, but for a temporary conversation, which has
/// none stored.
pub proof fn clearing_leaves_no_message(chat: InteractiveSession)
    ensures
        messages_after(chat.session.messages@, ChatCommand::Clear).len() == 0,
        files_after(chat.context_files@, ChatCommand::Clear) == chat.context_files@,
        chat.session.temporary ==> command_deeds(chat, ChatCommand::Clear).len() == 3,
        !chat.session.temporary ==> command_deeds(chat, ChatCommand::Clear).len() == 4
            && command_deeds(chat, ChatCommand::Clear)[0] == Deed::Discard(
            Change::DiscardPending(chat.session.id@),
        ),
        ({
            let list = command_deeds(chat, ChatCommand::Clear);
            let n = list.len() as int;
            list[n - 3] is ClearScreen && list[n - 2] is ShowWelcome && list[n - 1] == Deed::Say(
                Told::Cleared,
            )
        }),
{
}

/// Removing files from the context shows what is left only when something
/// went, and tells which it was.
pub proof fn removing_files_shows_what_is_left(chat: InteractiveSession, path: String)
    ensures
        files_after(chat.context_files@, ChatCommand::RemoveContext(path)) == without(
            chat.context_files@,
            path@,
        ),
        ({
            let left = without(chat.context_files@, path@);
            let list = command_deeds(chat, ChatCommand::RemoveContext(path));
            &&& list[0] matches Deed::Say(t) && (t is Success <==> left.len()
                < chat.context_files@.len())
            &&& left.len() < chat.context_files@.len() ==> list.len() == 2 && (
            list[1] matches Deed::ShowContext(p) && p == paths(left))
            &&& left.len() >= chat.context_files@.len() ==> list.len() == 1
        }),
{
}

/// `/streaming` sets what was asked for and tells it; without a setting it
/// sets nothing.
pub proof fn streaming_is_set_as_asked(chat: InteractiveSession, setting: Option<bool>)
    ensures
        ({
            let list = command_deeds(chat, ChatCommand::Streaming(setting));
            match setting {
                Some(on) => {
                    &&& list.len() == 2
                    &&& list[0] == Deed::SetStreaming(on)
                    &&& list[1] == Deed::Say(
                        Told::Success(
                            "Streaming output "@ + (if on {
                                "enabled"@
                            } else {
                                "disabled"@
                            }),
                        ),
                    )
                },
                None => list.len() == 1 && (list[0] matches Deed::Say(t) && t is Text),
            }
        }),
{
}

/// `/tools` sets what was asked for, and without a setting turns them over.
pub proof fn tools_are_set_or_turned_over(enabled: bool)
    ensures
        tools_after(enabled, Some(true)),
        !tools_after(enabled, Some(false)),
        tools_after(enabled, None) == !enabled,
{
}

/// `/tools` tells the setting after it was made.
pub proof fn tools_tell_the_new_setting(chat: InteractiveSession, setting: Option<bool>)
    ensures
        command_deeds(chat, ChatCommand::Tools(setting)).len() == 1,
        ({
            let on = match setting {
                Some(b) => b,
                None => !chat.chat_state.tools_enabled,
            };
            command_deeds(chat, ChatCommand::Tools(setting))[0] == Deed::Say(
                tools_told(on, chat.chat_state.provider@),
            )
        }),
{
}

/// `/effort` shows, takes back or sets the effort, whatever the case it was
/// typed in.
pub proof fn an_effort_is_read_in_lowercase(chat: InteractiveSession, value: String)
    ensures
        command_deeds(chat, ChatCommand::Effort(None)) == seq![Deed::ShowEffort],
        lowercase(value@) == "default"@ || lowercase(value@) == "clear"@ || lowercase(value@)
            == "unset"@ ==> command_deeds(chat, ChatCommand::Effort(Some(value))) == seq![
            Deed::ResetEffort,
        ],
        lowercase(value@) != "default"@ && lowercase(value@) != "clear"@ && lowercase(value@)
            != "unset"@ ==> command_deeds(chat, ChatCommand::Effort(Some(value))) == seq![
            Deed::SetEffort(lowercase(value@)),
        ],
{
}

/// `/branch` names the session, and the branch where it was named, and says
/// how many messages it would have.
pub proof fn a_branch_names_its_session(chat: InteractiveSession, name: Option<String>)
    ensures
        ({
            let list = command_deeds(chat, ChatCommand::Branch(name));
            &&& list.len() == 6
            &&& list[0] matches Deed::Say(Told::Success(t)) && has_part(t, chat.session.name@) && (
            name matches Some(n) ==> has_part(t, " --name "@ + n@))
            &&& list[2] matches Deed::Print(t) && has_part(t, decimal(chat.session.messages@.len()))
        }),
{
    let start =
        "🌿 /branch is not available inside chat yet.\n   Save this conversation, then run: termai sessions branch "@;
    let session = chat.session.name@;
    match name {
        Some(n) => {
            let end = " --name "@ + n@;
            lemma_in_between(start, session, end);
            lemma_in_between(start + session, end, Seq::empty());
            assert(start + session + end + Seq::<char>::empty() =~= start + session + end);
        },
        None => {
            lemma_in_between(start, session, ""@);
        },
    }
    lemma_in_between(
        "     • "@,
        decimal(chat.session.messages@.len()),
        " messages from current conversation"@,
    );
}

/// Each of the other commands has its one deed, on what it was given.
pub proof fn each_command_has_its_deed(chat: InteractiveSession, given: String)
    ensures
        command_deeds(chat, ChatCommand::Help) == seq![Deed::ShowHelp],
        command_deeds(chat, ChatCommand::Commands) == seq![Deed::ShowPalette],
        command_deeds(chat, ChatCommand::Save(None)) =~~= seq![Deed::SaveAs(None)],
        command_deeds(chat, ChatCommand::Save(Some(given))) =~~= seq![Deed::SaveAs(Some(given@))],
        command_deeds(chat, ChatCommand::Sessions) == seq![Deed::ListSessions(10)],
        command_deeds(chat, ChatCommand::Unsent) == seq![Deed::ShowUnsent],
        command_deeds(chat, ChatCommand::Context) == seq![
            Deed::ShowContext(paths(chat.context_files@)),
        ],
        command_deeds(chat, ChatCommand::Exit).len() == 0,
        command_deeds(chat, ChatCommand::Quit).len() == 0,
        command_deeds(chat, ChatCommand::AddContext(given)) == seq![Deed::AddContext(given@)],
        command_deeds(chat, ChatCommand::Model(Some(given))) == seq![Deed::SwitchModel(given@)],
        command_deeds(chat, ChatCommand::Model(None)).len() == 3 && command_deeds(
            chat,
            ChatCommand::Model(None),
        )[0] is ShowStatus && command_deeds(chat, ChatCommand::Model(None))[2] is ShowModels,
        command_deeds(chat, ChatCommand::Provider(Some(given))) == seq![
            Deed::SwitchProvider(given@),
        ],
        command_deeds(chat, ChatCommand::Provider(None)) == seq![Deed::ShowStatus],
        command_deeds(chat, ChatCommand::Status) == seq![Deed::ShowStatus],
        command_deeds(chat, ChatCommand::Theme(Some(given))) == seq![Deed::SetTheme(given@)],
        command_deeds(chat, ChatCommand::Theme(None)) == seq![Deed::ListThemes],
        command_deeds(chat, ChatCommand::Settings) == seq![
            Deed::ShowSettings(
                chat.chat_state.provider@,
                chat.chat_state.model@,
                chat.chat_state.tools_enabled,
                true,
                chat.context_files@.len() as int,
                chat.session.name@,
            ),
        ],
{
}

// ---------------------------------------------------------------------
// Turns
// ---------------------------------------------------------------------

/// Telling the chat to leave changes nothing else of it.
pub proof fn leaving_changes_nothing_else(chat: InteractiveSession)
    ensures
        leaving(chat).should_exit,
        leaving(chat).session == chat.session,
        leaving(chat).context_files == chat.context_files,
        leaving(chat).chat_state == chat.chat_state,
        leaving(chat).initial_input == chat.initial_input,
{
}

/// A change of the input line puts the palette and Ctrl+C back and keeps what
/// is queued.
pub proof fn typing_keeps_what_is_queued(ui: AnchorUi)
    ensures
        unpinned(ui).palette_pin is None,
        unpinned(ui).palette_index == 0,
        !unpinned(ui).palette_hidden,
        !unpinned(ui).ctrl_c_armed,
        unpinned(ui).queued == ui.queued,
        unpinned(ui).guard == ui.guard,
{
}

/// A turn that was answered restores the real text, stores the conversation,
/// names it and shows the answer, in that order, and restores the text again;
/// on a terminal it shows the answer with the input line put aside.
pub proof fn an_answered_turn_takes_its_course()
    ensures
        answered(Mode::Plain) == seq![
            Course::Unredact,
            Course::Persist,
            Course::NameSession,
            Course::Paint,
            Course::Unredact,
        ],
        answered(Mode::Anchored).len() == 7,
        answered(Mode::Anchored)[0] is Unredact,
        answered(Mode::Anchored)[1] is Persist,
        answered(Mode::Anchored)[2] is NameSession,
        answered(Mode::Anchored)[3] is Suspend,
        answered(Mode::Anchored)[4] is Paint,
        answered(Mode::Anchored)[5] is Resume,
        answered(Mode::Anchored)[6] is Unredact,
{
}

/// How a turn on a terminal ends: an answer takes its course, a failure is
/// told and what was typed is given back, and so is what was cancelled; when
/// the terminal is gone, only the text is restored.
pub proof fn a_turn_ends_by_its_outcome(
    chat: InteractiveSession,
    typed: Seq<char>,
    outcome: TurnOutcome,
)
    ensures
        ({
            let list = anchored_ending(chat, typed, outcome);
            let messages = chat.session.messages@;
            let n = messages.len() as int;
            let prompt = n > 0 && messages[n - 1].role == Role::User;
            match outcome {
                TurnOutcome::Done(Ok(_)) => list == answered(Mode::Anchored) && after_turn(
                    messages,
                    outcome,
                ) == messages,
                TurnOutcome::Done(Err(error)) => {
                    &&& list.len() == 3
                    &&& list[0] == Course::Tell(Told::Error("AI Error: "@ + error@))
                    &&& list[1] == Course::OfferBack(
                        if prompt {
                            Some(typed)
                        } else {
                            None
                        },
                    )
                    &&& list[2] is Unredact
                    &&& prompt ==> after_turn(messages, outcome) == messages.take(n - 1)
                    &&& !prompt ==> after_turn(messages, outcome) == messages
                },
                TurnOutcome::Cancelled => {
                    &&& list.len() == 3
                    &&& list[0] matches Course::Tell(t) && t is Text
                    &&& list[1] == Course::OfferBack(
                        if prompt {
                            Some(typed)
                        } else {
                            None
                        },
                    )
                    &&& list[2] is Unredact
                    &&& prompt ==> after_turn(messages, outcome) == messages.take(n - 1)
                    &&& !prompt ==> after_turn(messages, outcome) == messages
                },
                TurnOutcome::InputClosed => list.len() == 1 && list[0] is Unredact && after_turn(
                    messages,
                    outcome,
                ) == messages,
            }
        }),
{
    let messages = chat.session.messages@;
    if messages.len() > 0 {
        assert(messages.drop_last() =~= messages.take(messages.len() - 1));
    }
}

/// How a turn without a terminal ends: after a failure it is told how to get
/// an unanswered prompt back, and that prompt leaves the conversation.
pub proof fn a_plain_turn_ends_by_its_result(chat: InteractiveSession, result: Result<(), String>)
    ensures
        ({
            let list = plain_ending(chat, result);
            let messages = chat.session.messages@;
            let n = messages.len() as int;
            let prompt = n > 0 && messages[n - 1].role == Role::User;
            match result {
                Ok(_) => list == answered(Mode::Plain),
                Err(error) => {
                    &&& list.len() == if prompt {
                        3int
                    } else {
                        2
                    }
                    &&& list[0] == Course::Tell(Told::Error("AI Error: "@ + error@))
                    &&& prompt ==> (list[1] matches Course::Tell(t) && t is Warning)
                    &&& list.last() is Unredact
                    &&& prompt ==> taken_back(messages) == messages.take(n - 1)
                    &&& !prompt ==> taken_back(messages) == messages
                },
            }
        }),
{
    let messages = chat.session.messages@;
    if messages.len() > 0 {
        assert(messages.drop_last() =~= messages.take(messages.len() - 1));
    }
}

// ---------------------------------------------------------------------
// The palette
// ---------------------------------------------------------------------

/// A hidden palette shows nothing; a pinned one shows what was pinned, and any
/// other what matches the input.
pub proof fn the_palette_shows_what_is_pinned_or_matches(
    ui: AnchorUi,
    filtered: Seq<PaletteItem>,
)
    ensures
        ui.palette_hidden ==> ui.shown(filtered).len() == 0,
        !ui.palette_hidden && ui.palette_pin is None ==> ui.shown(filtered) == filtered,
        !ui.palette_hidden ==> (ui.palette_pin matches Some(pinned) ==> ui.shown(filtered)
            == pinned@),
{
}

/// The highlighted entry is the selected one, or the last where there are
/// fewer.
pub proof fn the_highlight_stays_on_the_palette(ui: AnchorUi, shown: Seq<PaletteItem>)
    ensures
        shown.len() > 0 ==> 0 <= ui.selected(shown) < shown.len(),
        shown.len() == 0 ==> ui.selected(shown) == 0,
        ui.palette_index < shown.len() ==> ui.selected(shown) == ui.palette_index,
        0 < shown.len() <= ui.palette_index ==> ui.selected(shown) == shown.len() - 1,
{
}

/// The first Tab goes to the first entry and each further one to the next;
/// behind the last comes the first again.
pub proof fn a_tab_goes_to_the_next_entry(ui: AnchorUi, shown: Seq<PaletteItem>)
    ensures
        ui.palette_pin is None ==> ui.next_index(shown) == 0,
        ui.palette_pin is Some && ui.palette_index + 1 < shown.len() ==> ui.next_index(shown)
            == ui.palette_index + 1,
        ui.palette_pin is Some && ui.palette_index + 1 == shown.len() ==> ui.next_index(shown)
            == 0,
{
}

// ---------------------------------------------------------------------
// Effects and notices
// ---------------------------------------------------------------------

/// A notice is seen as what it tells, in its tone.
pub proof fn a_notice_is_seen_as_it_is(list: Seq<Notice>, i: int)
    requires
        0 <= i < list.len(),
    ensures
        told(list).len() == list.len(),
        match list[i] {
            Notice::Text(s) => told(list)[i] == Told::Text(s@),
            Notice::Success(s) => told(list)[i] == Told::Success(s@),
            Notice::Warning(s) => told(list)[i] == Told::Warning(s@),
            Notice::Error(s) => told(list)[i] == Told::Error(s@),
            Notice::Saved(s) => told(list)[i] == Told::Saved(s@),
            Notice::Cleared => told(list)[i] is Cleared,
        },
{
}

/// An effect of a command is seen as what is to be done, and on what.
pub proof fn an_effect_is_seen_as_it_is(list: Seq<Effect>, i: int)
    requires
        0 <= i < list.len(),
    ensures
        deeds(list).len() == list.len(),
        match list[i] {
            Effect::Say(n) => deeds(list)[i] == Deed::Say(n@),
            Effect::Print(s) => deeds(list)[i] == Deed::Print(s@),
            Effect::ShowHelp => deeds(list)[i] is ShowHelp,
            Effect::ShowPalette => deeds(list)[i] is ShowPalette,
            Effect::ShowWelcome => deeds(list)[i] is ShowWelcome,
            Effect::ShowStatus => deeds(list)[i] is ShowStatus,
            Effect::ShowModels => deeds(list)[i] is ShowModels,
            Effect::ShowContext(paths) => deeds(list)[i] == Deed::ShowContext(texts(paths@)),
            Effect::ShowSettings(s) => deeds(list)[i] == Deed::ShowSettings(
                s.provider@,
                s.model@,
                s.tools_enabled,
                s.streaming,
                s.context_files as int,
                s.session@,
            ),
            Effect::ShowUnsent => deeds(list)[i] is ShowUnsent,
            Effect::ListSessions(n) => deeds(list)[i] == Deed::ListSessions(n as int),
            Effect::ListThemes => deeds(list)[i] is ListThemes,
            Effect::ClearScreen => deeds(list)[i] is ClearScreen,
            Effect::Discard(w) => deeds(list)[i] == Deed::Discard(w@),
            Effect::Ask(s) => deeds(list)[i] == Deed::Ask(s@),
            Effect::SaveAs(None) => deeds(list)[i] == Deed::SaveAs(None),
            Effect::SaveAs(Some(name)) => deeds(list)[i] == Deed::SaveAs(Some(name@)),
            Effect::AddContext(s) => deeds(list)[i] == Deed::AddContext(s@),
            Effect::SwitchModel(s) => deeds(list)[i] == Deed::SwitchModel(s@),
            Effect::SwitchProvider(s) => deeds(list)[i] == Deed::SwitchProvider(s@),
            Effect::SetEffort(EffortRequest::Show) => deeds(list)[i] is ShowEffort,
            Effect::SetEffort(EffortRequest::Reset) => deeds(list)[i] is ResetEffort,
            Effect::SetEffort(EffortRequest::Parse(s)) => deeds(list)[i] == Deed::SetEffort(s@),
            Effect::SetTheme(s) => deeds(list)[i] == Deed::SetTheme(s@),
            Effect::SetStreaming(on) => deeds(list)[i] == Deed::SetStreaming(on),
        },
{
}

/// A step of a turn is seen as what is to be done.
pub proof fn a_step_is_seen_as_it_is(list: Seq<TurnEffect>, i: int)
    requires
        0 <= i < list.len(),
    ensures
        course(list).len() == list.len(),
        match list[i] {
            TurnEffect::WriteAhead => course(list)[i] is WriteAhead,
            TurnEffect::Redact => course(list)[i] is Redact,
            TurnEffect::Call => course(list)[i] is Call,
            TurnEffect::Unredact => course(list)[i] is Unredact,
            TurnEffect::Persist => course(list)[i] is Persist,
            TurnEffect::NameSession => course(list)[i] is NameSession,
            TurnEffect::Suspend => course(list)[i] is Suspend,
            TurnEffect::Paint => course(list)[i] is Paint,
            TurnEffect::Resume => course(list)[i] is Resume,
            TurnEffect::Tell(n) => course(list)[i] == Course::Tell(n@),
            TurnEffect::OfferBack(None) => course(list)[i] == Course::OfferBack(None),
            TurnEffect::OfferBack(Some(s)) => course(list)[i] == Course::OfferBack(Some(s@)),
        },
{
}

} // verus!
