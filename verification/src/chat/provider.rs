//! Which provider answers, and how it is called.

use crate::chat::notice::Notice;
#[allow(unused_imports)]
use crate::chat::notice::{told, Told};
use crate::text::{concat, same, to_lowercase};
#[allow(unused_imports)]
use crate::text::{lowercase, lowers_plainly};
use vstd::prelude::*;

verus! {

/// The error for Codex without a login.
pub const CODEX_NOT_AUTHENTICATED: &'static str =
    "Not authenticated with Codex. Run 'termai auth login codex' to authenticate.";

/// The values that a reasoning effort can have.
pub const VALID_EFFORTS: &'static str = "none, low, medium, high, xhigh, max, ultra";

/// What the chat is set to.
#[derive(Debug)]
pub struct ChatState {
    pub provider: String,
    pub model: String,
    pub tools_enabled: bool,
    /// The reasoning effort set for this session.
    pub reasoning_effort: Option<String>,
}

impl ChatState {
    /// The effort in force: the session's beats the configured one.
    pub open spec fn effort(self, configured: Option<String>) -> Option<String> {
        match self.reasoning_effort {
            Some(effort) => Some(effort),
            None => configured,
        }
    }

    pub fn effective_reasoning_effort(&self, configured: Option<String>) -> (r: Option<String>)
        ensures
            r == self.effort(configured),
    {
        match &self.reasoning_effort {
            Some(effort) => Some(effort.clone()),
            None => configured,
        }
    }
}

// ---------------------------------------------------------------------
// Providers
// ---------------------------------------------------------------------

/// A provider.
#[derive(Debug, Clone, Copy, PartialEq, Eq, Structural)]
pub enum SettingsProvider {
    Claude,
    Openai,
    Codex,
}

/// The provider that a name stands for. The name of the first of them is the
/// configuration's and is handed in.
pub open spec fn provider_named(name: Seq<char>, claude: Seq<char>) -> Option<SettingsProvider> {
    if name == claude {
        Some(SettingsProvider::Claude)
    } else if name == "openai"@ {
        Some(SettingsProvider::Openai)
    } else if name == "openai-codex"@ || name == "openai_codex"@ || name == "codex"@ {
        Some(SettingsProvider::Codex)
    } else {
        None
    }
}

/// The provider that a name stands for.
pub fn provider_of(name: &str, claude: &str) -> (r: Option<SettingsProvider>)
    ensures
        r == provider_named(name@, claude@),
{
    if same(name, claude) {
        Some(SettingsProvider::Claude)
    } else if same(name, "openai") {
        Some(SettingsProvider::Openai)
    } else if same(name, "openai-codex") || same(name, "openai_codex") || same(name, "codex") {
        Some(SettingsProvider::Codex)
    } else {
        None
    }
}

/// How a provider is called.
#[derive(Debug)]
pub enum Call {
    Claude { model: String },
    Openai { model: String },
    /// With tools the provider's own choice of model is used.
    OpenaiWithTools,
    Codex { model: String, effort: Option<String> },
}

/// Call the AI service for the configured provider.
pub fn call_ai(state: &ChatState, claude: &str, configured: Option<String>) -> (r: Result<
    Call,
    String,
>)
    ensures
        match provider_named(state.provider@, claude@) {
            Some(SettingsProvider::Claude) => r matches Ok(Call::Claude { model }) && model
                == state.model,
            Some(SettingsProvider::Openai) => if state.tools_enabled {
                r matches Ok(Call::OpenaiWithTools)
            } else {
                r matches Ok(Call::Openai { model }) && model == state.model
            },
            Some(SettingsProvider::Codex) => r matches Ok(Call::Codex { model, effort }) && model
                == state.model && effort == state.effort(configured),
            None => r matches Err(e) && e@ == "Unsupported provider: "@ + state.provider@,
        },
{
    match provider_of(state.provider.as_str(), claude) {
        Some(SettingsProvider::Claude) => Ok(Call::Claude { model: state.model.clone() }),
        Some(SettingsProvider::Openai) => if state.tools_enabled {
            Ok(Call::OpenaiWithTools)
        } else {
            Ok(Call::Openai { model: state.model.clone() })
        },
        Some(SettingsProvider::Codex) => Ok(
            Call::Codex {
                model: state.model.clone(),
                effort: state.effective_reasoning_effort(configured),
            },
        ),
        None => Err(concat("Unsupported provider: ", state.provider.as_str())),
    }
}

/// The token that Codex is called with: `found` is a valid one, if there is
/// any.
pub fn codex_token(found: Option<String>) -> (r: Result<String, String>)
    ensures
        match found {
            Some(token) => r == Ok::<String, String>(token),
            None => r matches Err(e) && e@ == CODEX_NOT_AUTHENTICATED@,
        },
{
    match found {
        Some(token) => Ok(token),
        None => Err(CODEX_NOT_AUTHENTICATED.to_owned()),
    }
}

/// What the configuration is set to after a switch.
pub fn update_config_from_state(state: &ChatState, claude: &str) -> (r: Result<
    (SettingsProvider, String),
    String,
>)
    ensures
        match provider_named(state.provider@, claude@) {
            Some(provider) => r == Ok::<(SettingsProvider, String), String>(
                (provider, state.model),
            ),
            None => r matches Err(e) && e@ == "Unknown provider: "@ + state.provider@,
        },
{
    match provider_of(state.provider.as_str(), claude) {
        Some(provider) => Ok((provider, state.model.clone())),
        None => Err(concat("Unknown provider: ", state.provider.as_str())),
    }
}

// ---------------------------------------------------------------------
// Effort and tools
// ---------------------------------------------------------------------

/// What `/effort` asks for.
#[derive(Debug)]
pub enum EffortRequest {
    /// Show what is in force.
    Show,
    /// Go back to the default.
    Reset,
    /// Set it to this value, if it is one.
    Parse(String),
}

/// A lowercase value that means the default.
pub open spec fn means_default(value: Seq<char>) -> bool {
    value == "default"@ || value == "clear"@ || value == "unset"@
}

/// What `/effort` asks for.
pub fn effort_request(effort: &Option<String>) -> (r: EffortRequest)
    ensures
        match effort {
            None => r is Show,
            Some(value) => if means_default(lowercase(value@)) {
                r is Reset
            } else {
                r matches EffortRequest::Parse(v) && v@ == lowercase(value@)
            },
        },
        effort matches Some(value) ==> lowers_plainly(value@),
{
    match effort {
        None => EffortRequest::Show,
        Some(value) => {
            let low = to_lowercase(value.as_str());
            if same(low.as_str(), "default") || same(low.as_str(), "clear") || same(
                low.as_str(),
                "unset",
            ) {
                EffortRequest::Reset
            } else {
                EffortRequest::Parse(low)
            }
        },
    }
}

/// A value of `/effort` that is one: how it is written, and what to warn of.
#[derive(Debug)]
pub struct ParsedEffort {
    pub effort: String,
    pub warning: Option<String>,
}

/// What `/effort` tells.
pub open spec fn effort_told(
    state: ChatState,
    request: EffortRequest,
    configured: Option<String>,
    parsed: Option<ParsedEffort>,
) -> Seq<Told> {
    match request {
        EffortRequest::Show => {
            let current = match state.effort(configured) {
                Some(effort) => effort@,
                None => "default (provider default)"@,
            };
            seq![
                Told::Text(
                    "🧠 Reasoning effort: "@ + current + "\n   Valid values: "@ + VALID_EFFORTS@
                        + " (or 'default' to clear)"@,
                ),
            ]
        },
        EffortRequest::Reset => seq![
            Told::Success("Reasoning effort reset to default for this session"@),
        ],
        EffortRequest::Parse(value) => match parsed {
            Some(p) => {
                let done = Told::Success(
                    "Reasoning effort set to "@ + p.effort@ + " for this session"@,
                );
                match p.warning {
                    Some(warning) => seq![Told::Warning(warning@), done],
                    None => seq![done],
                }
            },
            None => seq![
                Told::Warning(
                    "Invalid reasoning effort '"@ + value@ + "'. Valid values: "@ + VALID_EFFORTS@,
                ),
            ],
        },
    }
}

/// The session's effort after `/effort`.
pub open spec fn effort_after(
    state: ChatState,
    request: EffortRequest,
    parsed: Option<ParsedEffort>,
) -> Option<String> {
    match request {
        EffortRequest::Show => state.reasoning_effort,
        EffortRequest::Reset => None,
        EffortRequest::Parse(_) => match parsed {
            Some(p) => Some(p.effort),
            None => state.reasoning_effort,
        },
    }
}

/// Handle /effort command - show or set the session reasoning effort. For a
/// value, `parsed` is what it was parsed to, if it is one.
pub fn handle_effort_command(
    state: &mut ChatState,
    request: &EffortRequest,
    configured: Option<String>,
    parsed: &Option<ParsedEffort>,
) -> (r: Vec<Notice>)
    ensures
        told(r@) == effort_told(*old(state), *request, configured, *parsed),
        *final(state) == (ChatState {
            reasoning_effort: effort_after(*old(state), *request, *parsed),
            ..*old(state)
        }),
{
    let ghost want = effort_told(*state, *request, configured, *parsed);
    let mut r: Vec<Notice> = Vec::new();
    match request {
        EffortRequest::Show => {
            let current = match state.effective_reasoning_effort(configured) {
                Some(effort) => effort,
                None => "default (provider default)".to_owned(),
            };
            let start = concat("🧠 Reasoning effort: ", current.as_str());
            let middle = concat(concat(start.as_str(), "\n   Valid values: ").as_str(), VALID_EFFORTS);
            r.push(Notice::Text(concat(middle.as_str(), " (or 'default' to clear)")));
        },
        EffortRequest::Reset => {
            state.reasoning_effort = None;
            r.push(
                Notice::Success("Reasoning effort reset to default for this session".to_owned()),
            );
        },
        EffortRequest::Parse(value) => match parsed {
            Some(p) => {
                if let Some(warning) = &p.warning {
                    r.push(Notice::Warning(warning.clone()));
                }
                state.reasoning_effort = Some(p.effort.clone());
                let start = concat("Reasoning effort set to ", p.effort.as_str());
                r.push(Notice::Success(concat(start.as_str(), " for this session")));
            },
            None => {
                let start = concat("Invalid reasoning effort '", value.as_str());
                let middle = concat(start.as_str(), "'. Valid values: ");
                r.push(Notice::Warning(concat(middle.as_str(), VALID_EFFORTS)));
            },
        },
    }
    assert(told(r@) =~= want);
    r
}

/// What `/tools` tells once the setting is made.
pub open spec fn tools_told(enabled: bool, provider: Seq<char>) -> Told {
    Told::Success(
        "Tools are now "@ + (if enabled {
            "enabled"@
        } else {
            "disabled"@
        })
            + ". The AI can execute bash commands, read/write files, and list directories."@ + (
        if provider != "openai"@ {
            "\n⚠️  Note: Tools are only supported with the OpenAI provider. Current provider: "@
                + provider
        } else {
            ""@
        }),
    )
}

/// Handle /tools command - toggle or set tool usage
pub fn handle_tools_command(state: &mut ChatState, setting: Option<bool>) -> (r: Notice)
    ensures
        *final(state) == (ChatState {
            tools_enabled: match setting {
                Some(enabled) => enabled,
                None => !old(state).tools_enabled,
            },
            ..*old(state)
        }),
        r@ == tools_told(final(state).tools_enabled, old(state).provider@),
{
    match setting {
        Some(enabled) => {
            state.tools_enabled = enabled;
        },
        None => {
            state.tools_enabled = !state.tools_enabled;
        },
    }
    let status = if state.tools_enabled {
        "enabled"
    } else {
        "disabled"
    };
    let note = if same(state.provider.as_str(), "openai") {
        "".to_owned()
    } else {
        concat(
            "\n⚠️  Note: Tools are only supported with the OpenAI provider. Current provider: ",
            state.provider.as_str(),
        )
    };
    let start = concat("Tools are now ", status);
    let middle = concat(
        start.as_str(),
        ". The AI can execute bash commands, read/write files, and list directories.",
    );
    Notice::Success(concat(middle.as_str(), note.as_str()))
}

// ---------------------------------------------------------------------
// Laws
// ---------------------------------------------------------------------

/// Every provider is found under its name, and Codex under each of its three.
pub proof fn the_names_of_a_provider_agree(claude: Seq<char>)
    requires
        claude != "codex"@,
        claude != "openai"@,
        claude != "openai-codex"@,
        claude != "openai_codex"@,
    ensures
        provider_named(claude, claude) == Some(SettingsProvider::Claude),
        provider_named("openai"@, claude) == Some(SettingsProvider::Openai),
        provider_named("codex"@, claude) == Some(SettingsProvider::Codex),
        provider_named("openai-codex"@, claude) == Some(SettingsProvider::Codex),
        provider_named("openai_codex"@, claude) == Some(SettingsProvider::Codex),
{
    reveal_strlit("openai");
    reveal_strlit("openai-codex");
    reveal_strlit("openai_codex");
    reveal_strlit("codex");
    assert("openai"@.len() == 6 && "codex"@.len() == 5);
    assert("openai-codex"@.len() == 12 && "openai_codex"@.len() == 12);
}

} // verus!
