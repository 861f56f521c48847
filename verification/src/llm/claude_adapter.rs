//! Calls of the Messages API. The name of the vendor, which the words to the
//! user begin with, is handed in.

use crate::llm::http::{refusal, retry, Action, Event};
#[allow(unused_imports)]
use crate::llm::http::{possible, reason_of, retried, status_words};
use crate::text::byte_length;
#[allow(unused_imports)]
use crate::text::byte_len;
use crate::text::{concat, decimal_text};
#[allow(unused_imports)]
use crate::text::{decimal, has_part, occurs_at};
use vstd::prelude::*;

verus! {

pub const URL: &'static str = "https://api.anthropic.com/v1/messages";

pub const VERSION: &'static str = "2023-06-01";

/// An input of more bytes than this is mentioned.
pub const LARGE_INPUT: usize = 10000;

/// How many bytes the messages have.
pub open spec fn input_size(contents: Seq<String>) -> nat
    decreases contents.len(),
{
    if contents.len() == 0 {
        0
    } else {
        input_size(contents.drop_last()) + byte_len(contents.last()@)
    }
}

proof fn lemma_input_prefix(contents: Seq<String>, n: int)
    requires
        0 <= n <= contents.len(),
    ensures
        input_size(contents.take(n)) <= input_size(contents),
    decreases contents.len(),
{
    if n < contents.len() {
        lemma_input_prefix(contents.drop_last(), n);
        assert(contents.drop_last().take(n) =~= contents.take(n));
    } else {
        assert(contents.take(n) =~= contents);
    }
}

/// What is said of a request that is large.
pub fn large_input_notice(vendor: &str, contents: &Vec<String>) -> (r: Option<String>)
    requires
        input_size(contents@) <= usize::MAX,
    ensures
        match r {
            Some(notice) => input_size(contents@) > LARGE_INPUT && notice@ == vendor@
                + " Request: Large input detected ("@ + decimal(input_size(contents@))
                + " characters)"@,
            None => input_size(contents@) <= LARGE_INPUT,
        },
        r is Some <==> input_size(contents@) > 10_000,
{
    let mut size: usize = 0;
    for i in 0..contents.len()
        invariant
            input_size(contents@) <= usize::MAX,
            size == input_size(contents@.take(i as int)),
    {
        proof {
            assert(contents@.take(i + 1).drop_last() =~= contents@.take(i as int));
            lemma_input_prefix(contents@, i + 1);
        }
        size += byte_length(contents[i].as_str());
    }
    assert(contents@.take(contents@.len() as int) =~= contents@);
    if size > LARGE_INPUT {
        let start = concat(vendor, " Request: Large input detected (");
        let middle = concat(start.as_str(), decimal_text(size as u64).as_str());
        Some(concat(middle.as_str(), " characters)"))
    } else {
        None
    }
}

/// The error that the last attempt ends in.
pub open spec fn final_error(vendor: Seq<char>, e: Event) -> Seq<char> {
    match e {
        Event::SendFailed { error, .. } => error@,
        Event::Refused { code, body } => vendor + " API error ("@ + status_words(code) + "): "@
            + body@,
        Event::BodyFailed { error } => error@,
        Event::Body { body } => body@,
    }
}

/// What follows an attempt. A reset connection or a 503 used to end the turn
/// on the first try and take the user's prompt with it.
pub fn chat(vendor: &str, attempt: u32, event: &Event) -> (r: Action)
    requires
        possible(*event),
    ensures
        if retried(attempt as int, *event) {
            r matches Action::Retry { label, reason } && label@ == (if event is BodyFailed {
                vendor@ + " response"@
            } else {
                vendor@ + " request"@
            }) && reason@ == reason_of(*event)
        } else if event is Body {
            r matches Action::Decode { body } && body == event->Body_body
        } else {
            r matches Action::Fail { error } && error@ == final_error(vendor@, *event)
        },
{
    let request = concat(vendor, " request");
    let response = concat(vendor, " response");
    if let Some(action) = retry(attempt, request.as_str(), response.as_str(), event) {
        return action;
    }
    match event {
        Event::SendFailed { error, .. } => Action::Fail { error: error.clone() },
        Event::Refused { code, body } => Action::Fail {
            error: refusal(concat(vendor, " API error (").as_str(), *code, "): ", body.as_str()),
        },
        Event::BodyFailed { error } => Action::Fail { error: error.clone() },
        Event::Body { body } => Action::Decode { body: body.clone() },
    }
}

/// What goes to the log when a request is refused for good.
pub fn refusal_notice(vendor: &str, body: &str) -> (r: String)
    ensures
        r@ == vendor@ + " API Error: "@ + body@,
{
    concat(concat(vendor, " API Error: ").as_str(), body)
}

/// The error for a body that cannot be decoded.
pub fn decode_error(vendor: &str, cause: &str) -> (r: String)
    ensures
        r@ == "Could not decode the "@ + vendor@ + " response: "@ + cause@,
{
    let start = concat("Could not decode the ", vendor);
    concat(concat(start.as_str(), " response: ").as_str(), cause)
}

// ---------------------------------------------------------------------
// Laws
// ---------------------------------------------------------------------

/// The size of the input is the number of bytes of its messages, added up.
pub proof fn the_size_adds_up(a: Seq<String>, b: Seq<String>, s: String)
    ensures
        input_size(Seq::<String>::empty()) == 0,
        input_size(seq![s]) == vstd::utf8::encode_utf8(s@).len(),
        input_size(a + b) == input_size(a) + input_size(b),
    decreases b.len(),
{
    assert(seq![s].drop_last() =~= Seq::<String>::empty());
    assert(input_size(seq![s].drop_last()) == 0);
    if b.len() == 0 {
        assert(a + b =~= a);
    } else {
        the_size_adds_up(a, b.drop_last(), s);
        assert((a + b).drop_last() =~= a + b.drop_last());
        assert((a + b).last() == b.last());
    }
}

/// What could not be sent or read is told in the words that it came with; a
/// refusal begins with the vendor, holds the status and ends in the body.
pub proof fn a_failure_is_told_in_its_own_words(vendor: Seq<char>, e: Event)
    ensures
        e matches Event::SendFailed { error, .. } ==> final_error(vendor, e) == error@,
        e matches Event::BodyFailed { error } ==> final_error(vendor, e) == error@,
        e matches Event::Refused { code, body } ==> {
            let words = final_error(vendor, e);
            &&& words.len() >= vendor.len() + status_words(code).len() + body@.len()
            &&& words.take(vendor.len() as int) == vendor
            &&& words.skip(words.len() - body@.len()) == body@
            &&& has_part(words, status_words(code))
        },
{
    if let Event::Refused { code, body } = e {
        let words = final_error(vendor, e);
        let start = vendor + " API error ("@;
        let status = status_words(code);
        assert(words.take(vendor.len() as int) =~= vendor);
        assert(words.skip(words.len() - body@.len()) =~= body@);
        assert(words.subrange(start.len() as int, start.len() as int + status.len()) =~= status);
        assert(occurs_at(words, status, start.len() as int));
    }
}

} // verus!
