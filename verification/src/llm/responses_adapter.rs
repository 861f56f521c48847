//! Calls of the OpenAI Responses API.

use crate::llm::http::{refusal, retry, Action, Event, MAX_ATTEMPTS};
#[allow(unused_imports)]
use crate::llm::http::{possible, reason_of, retried, status_words};
use crate::text::{concat, decimal_text};
#[allow(unused_imports)]
use crate::text::{decimal, has_part, occurs_at};
use vstd::prelude::*;

verus! {

pub const URL: &'static str = "https://api.openai.com/v1/responses";

/// Adapter for the OpenAI Responses API
pub struct ResponsesAdapter;

impl ResponsesAdapter {
    /// The error that the last attempt ends in.
    pub open spec fn final_error(e: Event) -> Seq<char> {
        match e {
            Event::SendFailed { error, .. } => error@,
            Event::Refused { code, body } => "OpenAI API request failed with status "@
                + status_words(code) + ": "@ + body@,
            Event::BodyFailed { error } => error@,
            Event::Body { .. } => "OpenAI API did not respond after "@ + decimal(
                MAX_ATTEMPTS as nat,
            ) + " attempts"@,
        }
    }

    /// What follows an attempt: transport failures and provider back-pressure
    /// are retried rather than ending the turn on the first hiccup.
    pub fn chat(attempt: u32, event: &Event) -> (r: Action)
        requires
            possible(*event),
        ensures
            if retried(attempt as int, *event) {
                r matches Action::Retry { label, reason } && label@ == (if event is BodyFailed {
                    "OpenAI response"@
                } else {
                    "OpenAI request"@
                }) && reason@ == reason_of(*event)
            } else if event is Body && event->Body_body@.len() > 0 {
                r matches Action::Decode { body } && body == event->Body_body
            } else {
                r matches Action::Fail { error } && error@ == Self::final_error(*event)
            },
    {
        if let Some(action) = retry(attempt, "OpenAI request", "OpenAI response", event) {
            return action;
        }
        match event {
            Event::SendFailed { error, .. } => Action::Fail { error: error.clone() },
            Event::Refused { code, body } => Action::Fail {
                error: refusal(
                    "OpenAI API request failed with status ",
                    *code,
                    ": ",
                    body.as_str(),
                ),
            },
            Event::BodyFailed { error } => Action::Fail { error: error.clone() },
            Event::Body { body } => if body.as_str().is_empty() {
                let start = concat(
                    "OpenAI API did not respond after ",
                    decimal_text(MAX_ATTEMPTS as u64).as_str(),
                );
                Action::Fail { error: concat(start.as_str(), " attempts") }
            } else {
                Action::Decode { body: body.clone() }
            },
        }
    }

    /// What goes to the log when a body cannot be decoded.
    pub fn decode_notices(body: &str, cause: &str) -> (r: Vec<String>)
        ensures
            r@.len() == 2,
            r@[0]@ == "Failed to parse OpenAI response: "@ + cause@,
            r@[1]@ == "Response body: "@ + body@,
    {
        vec![
            concat("Failed to parse OpenAI response: ", cause),
            concat("Response body: ", body),
        ]
    }

    /// The error for a body that cannot be decoded.
    pub fn decode_error(cause: &str) -> (r: String)
        ensures
            r@ == "Error decoding response body: "@ + cause@,
    {
        concat("Error decoding response body: ", cause)
    }
}

// ---------------------------------------------------------------------
// Laws
// ---------------------------------------------------------------------

/// What could not be sent or read is told in the words that it came with; a
/// refusal holds the status and ends in the body.
pub proof fn a_failure_is_told_in_its_own_words(e: Event)
    ensures
        e matches Event::SendFailed { error, .. } ==> ResponsesAdapter::final_error(e) == error@,
        e matches Event::BodyFailed { error } ==> ResponsesAdapter::final_error(e) == error@,
        e matches Event::Refused { code, body } ==> {
            let words = ResponsesAdapter::final_error(e);
            &&& words.len() >= status_words(code).len() + body@.len()
            &&& words.skip(words.len() - body@.len()) == body@
            &&& has_part(words, status_words(code))
        },
        e is Body ==> has_part(ResponsesAdapter::final_error(e), decimal(3)),
{
    match e {
        Event::Refused { code, body } => {
            let words = ResponsesAdapter::final_error(e);
            let start = "OpenAI API request failed with status "@;
            let status = status_words(code);
            assert(words.skip(words.len() - body@.len()) =~= body@);
            assert(words.subrange(start.len() as int, start.len() as int + status.len())
                =~= status);
            assert(occurs_at(words, status, start.len() as int));
        },
        Event::Body { .. } => {
            let words = ResponsesAdapter::final_error(e);
            let start = "OpenAI API did not respond after "@;
            let tries = decimal(3);
            assert(words.subrange(start.len() as int, start.len() as int + tries.len())
                =~= tries);
            assert(occurs_at(words, tries, start.len() as int));
        },
        _ => {},
    }
}

} // verus!
