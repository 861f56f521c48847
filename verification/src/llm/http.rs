//! Shared HTTP behaviour for every provider call.
//!
//! A dropped connection is the most common way a chat turn dies, and each
//! adapter used to build its own client with no timeouts and no retry: the
//! first transport hiccup ended the turn and threw the prompt away.

use crate::text::{concat, decimal_text};
#[allow(unused_imports)]
use crate::text::{begins_with, decimal};
#[allow(unused_imports)]
use vstd::arithmetic::power2::{lemma_pow2_strictly_increases, lemma_pow2_unfold, pow2};
use vstd::prelude::*;

verus! {

/// How many times a transient failure is worth repeating before giving up.
pub const MAX_ATTEMPTS: u32 = 3;

// There is deliberately no overall request timeout: a reasoning model can
// legitimately take minutes. What is bounded is the part that hangs when a
// network goes away — connecting, and an idle socket the far end has silently
// dropped.
pub const CONNECT_TIMEOUT_SECONDS: u64 = 20;

pub const TCP_KEEPALIVE_SECONDS: u64 = 30;

pub const POOL_IDLE_TIMEOUT_SECONDS: u64 = 90;

/// Transport failures worth repeating. A rejected key or a malformed request
/// will fail the same way every time, so those are not retried.
pub fn is_transient(timeout: bool, connect: bool, request: bool) -> (r: bool)
    ensures
        r == (timeout || connect || request),
{
    timeout || connect || request
}

/// Provider back-pressure and provider-side faults are worth repeating.
pub open spec fn transient_status(code: u16) -> bool {
    code == 429 || 500 <= code <= 599
}

pub fn is_transient_status(code: u16) -> (r: bool)
    ensures
        r == transient_status(code),
        r <==> code == 429 || 500 <= code <= 599,
{
    code == 429 || (500 <= code && code <= 599)
}

/// The request was carried out.
pub fn is_success(code: u16) -> (r: bool)
    ensures
        r == (200 <= code <= 299),
{
    200 <= code && code <= 299
}

/// A status in words, as `StatusCode` displays it.
pub uninterp spec fn status_words(code: u16) -> Seq<char>;

/// `reqwest::StatusCode::from_u16`, turned into a string: the code in decimal,
/// a space, and the reason phrase that goes with it, which is not listed here.
#[verifier::external_body]
fn status_text(code: u16) -> (r: String)
    requires
        100 <= code <= 999,
    ensures
        r@ == status_words(code),
        begins_with(r@, decimal(code as nat) + " "@),
{
    reqwest::StatusCode::from_u16(code).unwrap().to_string()
}

/// The milliseconds to wait after an attempt.
pub open spec fn wait_after(attempt: nat) -> nat {
    600 * pow2(if attempt == 0 {
        0
    } else {
        (attempt - 1) as nat
    })
}

/// How many milliseconds to wait before the next attempt.
pub fn backoff(attempt: u32) -> (millis: u64)
    requires
        wait_after(attempt as nat) <= u64::MAX,
    ensures
        millis == wait_after(attempt as nat),
{
    let times: u32 = if attempt == 0 {
        0
    } else {
        attempt - 1
    };
    let mut millis: u64 = 600;
    proof {
        vstd::arithmetic::power2::lemma2_to64();
    }
    for i in 0..times
        invariant
            600 * pow2(times as nat) <= u64::MAX,
            millis == 600 * pow2(i as nat),
    {
        proof {
            lemma_pow2_unfold((i + 1) as nat);
            if i + 1 < times {
                lemma_pow2_strictly_increases((i + 1) as nat, times as nat);
            }
        }
        millis = millis * 2;
    }
    millis
}

/// Every wait is twice as long as the one before.
pub proof fn waits_double(attempt: nat)
    requires
        attempt > 0,
    ensures
        wait_after(attempt + 1) == 2 * wait_after(attempt),
{
    lemma_pow2_unfold(attempt);
}

/// The first wait is six tenths of a second.
pub proof fn the_first_wait_is_short()
    ensures
        wait_after(0) == 600,
        wait_after(1) == 600,
{
    vstd::arithmetic::power2::lemma2_to64();
}

/// What is shown while waiting — a silent multi-second pause looks like a
/// hang. `seconds` is the wait in words.
pub fn backoff_notice(label: &str, attempt: u32, reason: &str, seconds: &str) -> (r: String)
    ensures
        r@ == "\r\x1b[2K\x1b[2m  ↻ "@ + label@ + " failed ("@ + reason@ + "); retrying in "@
            + seconds@ + "s ["@ + decimal(attempt as nat) + "/"@ + decimal(MAX_ATTEMPTS as nat)
            + "]\x1b[0m"@,
{
    let a = concat("\r\x1b[2K\x1b[2m  ↻ ", label);
    let b = concat(concat(a.as_str(), " failed (").as_str(), reason);
    let c = concat(concat(b.as_str(), "); retrying in ").as_str(), seconds);
    let d = concat(concat(c.as_str(), "s [").as_str(), decimal_text(attempt as u64).as_str());
    let e = concat(concat(d.as_str(), "/").as_str(), decimal_text(MAX_ATTEMPTS as u64).as_str());
    concat(e.as_str(), "]\x1b[0m")
}

// ---------------------------------------------------------------------
// One call
// ---------------------------------------------------------------------

/// What came of an attempt.
#[derive(Debug)]
pub enum Event {
    /// The request could not be sent.
    SendFailed { transient: bool, error: String },
    /// The reply has a status that is no success.
    Refused { code: u16, body: String },
    /// The body of a successful reply could not be read.
    BodyFailed { error: String },
    /// The body of a successful reply.
    Body { body: String },
}

/// What is done after an attempt.
#[derive(Debug)]
pub enum Action {
    /// Wait, and send again.
    Retry { label: String, reason: String },
    /// Give up.
    Fail { error: String },
    /// Decode this body.
    Decode { body: String },
}

/// The code of a refusal is one that a reply can have.
pub open spec fn possible(e: Event) -> bool {
    e matches Event::Refused { code, .. } ==> 100 <= code <= 999
}

/// The failure may go away by itself.
pub open spec fn passing(e: Event) -> bool {
    match e {
        Event::SendFailed { transient, .. } => transient,
        Event::Refused { code, .. } => transient_status(code),
        Event::BodyFailed { .. } => true,
        Event::Body { .. } => false,
    }
}

/// The attempt is followed by another one.
pub open spec fn retried(attempt: int, e: Event) -> bool {
    attempt < MAX_ATTEMPTS && passing(e)
}

/// The words of the failure that a retry names.
pub open spec fn reason_of(e: Event) -> Seq<char> {
    match e {
        Event::SendFailed { error, .. } => error@,
        Event::Refused { code, .. } => status_words(code),
        Event::BodyFailed { error } => error@,
        Event::Body { body } => body@,
    }
}

/// A refusal in words: `start`, the status, `middle` and the body.
pub fn refusal(start: &str, code: u16, middle: &str, body: &str) -> (r: String)
    requires
        100 <= code <= 999,
    ensures
        r@ == start@ + status_words(code) + middle@ + body@,
{
    let first = concat(start, status_text(code).as_str());
    concat(concat(first.as_str(), middle).as_str(), body)
}

/// Whether to send again after an attempt, and the words to say so.
pub fn retry(attempt: u32, request: &str, response: &str, event: &Event) -> (r: Option<Action>)
    requires
        possible(*event),
    ensures
        match r {
            Some(action) => {
                &&& retried(attempt as int, *event)
                &&& action matches Action::Retry { label, reason } && label@ == (
                if event is BodyFailed {
                    response@
                } else {
                    request@
                }) && reason@ == reason_of(*event)
            },
            None => !retried(attempt as int, *event),
        },
{
    if attempt >= MAX_ATTEMPTS {
        return None;
    }
    match event {
        Event::SendFailed { transient, error } => if *transient {
            Some(Action::Retry { label: request.to_owned(), reason: error.clone() })
        } else {
            None
        },
        Event::Refused { code, .. } => if is_transient_status(*code) {
            Some(Action::Retry { label: request.to_owned(), reason: status_text(*code) })
        } else {
            None
        },
        Event::BodyFailed { error } => Some(
            Action::Retry { label: response.to_owned(), reason: error.clone() },
        ),
        Event::Body { .. } => None,
    }
}

/// How many requests are sent for one call, when the attempts from `attempt`
/// on come to these events.
pub open spec fn sends(events: Seq<Event>, attempt: int) -> int
    decreases events.len(),
{
    if events.len() == 0 {
        0
    } else if retried(attempt, events[0]) {
        1 + sends(events.skip(1), attempt + 1)
    } else {
        1
    }
}

/// Whatever the replies are, a call sends at most three requests.
pub proof fn a_call_sends_at_most_three_requests(events: Seq<Event>)
    ensures
        sends(events, 1) <= MAX_ATTEMPTS,
{
    lemma_sends(events, 1);
}

proof fn lemma_sends(events: Seq<Event>, attempt: int)
    requires
        1 <= attempt <= MAX_ATTEMPTS,
    ensures
        sends(events, attempt) <= MAX_ATTEMPTS - attempt + 1,
    decreases events.len(),
{
    if events.len() > 0 && retried(attempt, events[0]) {
        lemma_sends(events.skip(1), attempt + 1);
    }
}

/// A call that was answered, or refused for a reason that will not go away, is
/// not sent again.
pub proof fn a_lasting_outcome_is_not_sent_again(events: Seq<Event>)
    requires
        events.len() > 0,
        !passing(events[0]),
    ensures
        sends(events, 1) == 1,
{
}

/// A call whose failures all may pass is tried three times.
pub proof fn passing_failures_are_sent_again(a: Event, b: Event, c: Event)
    requires
        passing(a),
        passing(b),
    ensures
        sends(seq![a, b, c], 1) == MAX_ATTEMPTS,
{
    reveal_with_fuel(sends, 4);
    let all = seq![a, b, c];
    assert(all[0] == a);
    assert(all.skip(1)[0] == b);
    assert(all.skip(1).skip(1)[0] == c);
}

/// An attempt is followed by another exactly when it is the first or second,
/// and the request could not be sent for a reason that may pass, or was refused
/// with too many requests or a fault of the provider, or the body of the reply
/// was lost.
pub proof fn only_what_may_pass_is_sent_again(attempt: int, e: Event)
    ensures
        retried(attempt, e) <==> attempt < 3 && match e {
            Event::SendFailed { transient, .. } => transient,
            Event::Refused { code, .. } => code == 429 || 500 <= code <= 599,
            Event::BodyFailed { .. } => true,
            Event::Body { .. } => false,
        },
{
}

/// A retry names the error as it came, and a refusal by its status.
pub proof fn a_retry_names_the_failure(e: Event)
    ensures
        e matches Event::SendFailed { error, .. } ==> reason_of(e) == error@,
        e matches Event::BodyFailed { error } ==> reason_of(e) == error@,
        e matches Event::Refused { code, .. } ==> reason_of(e) == status_words(code),
{
}

/// A request is sent again after each attempt that may pass, and the attempts
/// are counted.
pub proof fn each_attempt_counts(events: Seq<Event>, attempt: int)
    requires
        events.len() > 0,
    ensures
        sends(Seq::<Event>::empty(), attempt) == 0,
        retried(attempt, events[0]) ==> sends(events, attempt) == 1 + sends(
            events.skip(1),
            attempt + 1,
        ),
        !retried(attempt, events[0]) ==> sends(events, attempt) == 1,
{
}

} // verus!
