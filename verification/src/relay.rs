//! The decisions of a relay that polls a mailbox and forwards new mail:
//! which messages to fetch, what to hand on, and what to do next. The relay
//! itself (sessions, sending, sleeping) is the caller's; it tells this
//! module what happened and is told what to do.

use vstd::prelude::*;
use vstd::utf8::encode_utf8;
use vstd::utf8::valid_utf8;
use crate::bytes::{ascii, join_on};
use crate::key::chars;

verus! {

/// The seconds that the relay sleeps between two polls.
pub const POLL_INTERVAL: u64 = 10;

/// The digits of `n` in base ten, as ASCII bytes.
pub open spec fn decimal(n: nat) -> Seq<u8>
    decreases n,
{
    if n < 10 {
        seq![(48 + n) as u8]
    } else {
        decimal(n / 10).push((48 + n % 10) as u8)
    }
}

/// The texts written one after the other with `sep` between them.
pub open spec fn join_text(items: Seq<Seq<char>>, sep: Seq<char>) -> Seq<char>
    decreases items.len(),
{
    if items.len() == 0 {
        Seq::empty()
    } else if items.len() == 1 {
        items[0]
    } else {
        items[0] + sep + join_text(items.skip(1), sep)
    }
}

/// The views of a vector of strings.
pub open spec fn string_views(v: Seq<String>) -> Seq<Seq<char>> {
    Seq::new(v.len(), |i: int| v[i]@)
}

/// The numbers of the messages after `mark` up to `exists`, in order, each
/// in digits.
pub open spec fn numbers_after(mark: u32, exists: u32) -> Seq<Seq<char>> {
    Seq::new((exists - mark) as nat, |k: int| chars(decimal((mark + 1 + k) as nat)))
}

/// The sequence set that names the messages after `mark` up to `exists`:
/// their numbers with commas between them.
pub open spec fn sequence_set_of(mark: u32, exists: u32) -> Seq<char> {
    join_text(numbers_after(mark, exists), ","@)
}

/// The mark after a poll that found `exists` messages in the mailbox: the
/// larger of the two.
pub open spec fn mark_after(mark: u32, exists: u32) -> u32 {
    if exists > mark {
        exists
    } else {
        mark
    }
}

/// A key that JSON writes as it is: letters, digits and underscores.
pub open spec fn is_plain_key(key: Seq<char>) -> bool {
    forall|i: int|
        0 <= i < key.len() ==> ('a' <= #[trigger] key[i] <= 'z') || ('A' <= key[i] <= 'Z') || ('0'
            <= key[i] <= '9') || key[i] == '_'
}

/// The bytes, each as a number in digits.
pub open spec fn decimals(bytes: Seq<u8>) -> Seq<Seq<u8>> {
    Seq::new(bytes.len(), |i: int| decimal(bytes[i] as nat))
}

/// The JSON object with the one field `key`, whose value is the array of
/// the bytes as numbers, written without spaces.
pub open spec fn json_field(key: Seq<char>, bytes: Seq<u8>) -> Seq<u8> {
    ascii("{\""@) + ascii(key) + ascii("\":["@) + join_on(decimals(bytes), 44) + ascii("]}"@)
}

/// What is handed on for a mail: the object with the field `full_email`,
/// which holds the bytes of the mail.
pub open spec fn payload_of(mail: Seq<char>) -> Seq<u8> {
    json_field("full_email"@, encode_utf8(mail))
}

/// `to_string` of the standard library on a `u32`: the number in digits of
/// base ten, without sign and without leading zeros.
#[verifier::external_body]
fn decimal_string(n: u32) -> (r: String)
    ensures
        r@ == chars(decimal(n as nat)),
{
    n.to_string()
}

/// `itertools::join`: the items, each as `Display` writes it (a string as
/// it is), with `sep` between them; the empty string for no items.
#[verifier::external_body]
fn join_strings(items: &Vec<String>, sep: &str) -> (r: String)
    ensures
        r@ == join_text(string_views(items@), sep@),
{
    itertools::join(items, sep)
}

/// `serde_json::to_string` of a map with the one entry `key`, whose value
/// is a slice of bytes: an object with one field, whose value is the array
/// of the bytes as numbers, in the compact form. The key is written as it
/// is where nothing in it needs an escape.
#[verifier::external_body]
fn json_object_of_bytes(key: &str, bytes: &[u8]) -> (r: Vec<u8>)
    requires
        is_plain_key(key@),
    ensures
        r@ == json_field(key@, bytes@),
{
    let object = std::collections::BTreeMap::from([(key, bytes)]);
    match serde_json::to_string(&object) {
        Ok(text) => text.into_bytes(),
        Err(_) => Vec::new(),
    }
}

/// `String::from_utf8` of the standard library: the text that the bytes
/// encode, where they are valid UTF-8, and else nothing.
#[verifier::external_body]
fn utf8_string(bytes: Vec<u8>) -> (r: Option<String>)
    ensures
        r is Some <==> valid_utf8(bytes@),
        r matches Some(text) ==> encode_utf8(text@) == bytes@,
{
    match String::from_utf8(bytes) {
        Ok(text) => Some(text),
        Err(_) => None,
    }
}

/// The sequence set to fetch after a poll that found `exists` messages,
/// where `mark` is the number of the last message already seen: the numbers
/// of the new messages, or nothing where there is no new message.
pub fn sequence_set(mark: u32, exists: u32) -> (r: Option<String>)
    ensures
        r is Some <==> exists > mark,
        r matches Some(set) ==> set@ == sequence_set_of(mark, exists),
{
    if exists <= mark {
        return None;
    }
    let mut numbers: Vec<String> = Vec::new();
    let mut i: u32 = mark;
    while i < exists
        invariant
            mark <= i <= exists,
            numbers@.len() == i - mark,
            forall|k: int|
                0 <= k < numbers@.len() ==> (#[trigger] numbers@[k])@ == chars(
                    decimal((mark + 1 + k) as nat),
                ),
        decreases exists - i,
    {
        i += 1;
        numbers.push(decimal_string(i));
    }
    assert(string_views(numbers@) =~= numbers_after(mark, exists));
    Some(join_strings(&numbers, ","))
}

/// The mark after a poll that found `exists` messages in the mailbox.
pub fn next_mark(mark: u32, exists: u32) -> (r: u32)
    ensures
        r == mark_after(mark, exists),
{
    if exists > mark {
        exists
    } else {
        mark
    }
}

/// The text of a fetched message, where its bytes are valid UTF-8.
pub fn mail_text(body: &[u8]) -> (r: Option<String>)
    ensures
        r is Some <==> valid_utf8(body@),
        r matches Some(text) ==> encode_utf8(text@) == body@,
{
    let bytes = vstd::slice::slice_to_vec(body);
    utf8_string(bytes)
}

/// What is handed on for a mail.
pub fn mail_payload(mail: &str) -> (r: Vec<u8>)
    ensures
        r@ == payload_of(mail@),
{
    proof {
        reveal_strlit("full_email");
    }
    json_object_of_bytes("full_email", mail.as_bytes())
}

/// Where the relay stands.
#[derive(Clone, Copy, Debug, PartialEq, Eq, Structural)]
pub enum Phase {
    /// Nothing has been done yet.
    Start,
    /// The first poll is under way: it only counts what is there.
    Priming,
    /// A poll for new mail is under way.
    Polling,
    /// The mails of the last poll are being handed on; `next` of `count`
    /// is under way.
    Sending { next: usize, count: usize },
    /// The relay sleeps until the next poll.
    Sleeping,
    /// The relay has stopped and does nothing more.
    Stopped,
}

/// What the relay is told.
#[derive(Clone, Copy, Debug, PartialEq, Eq, Structural)]
pub enum Event {
    /// The relay is started.
    Started,
    /// A poll has ended: the mailbox holds `exists` messages, and `mails`
    /// new ones were fetched.
    Fetched { exists: u32, mails: usize },
    /// The mail that was to be sent has been sent.
    Sent,
    /// The sleep is over.
    Slept,
    /// What the relay was to do has failed.
    Failed,
}

/// What the relay is to do next.
#[derive(Clone, Copy, Debug, PartialEq, Eq, Structural)]
pub enum Action {
    /// Poll the mailbox for the messages after `after`.
    Fetch { after: u32 },
    /// Hand on the mail `index` of the last poll.
    Send { index: usize },
    /// Sleep for `seconds`.
    Sleep { seconds: u64 },
    /// Stop.
    Stop,
}

/// The state of the relay: the number of the last message seen, and the
/// phase.
#[derive(Clone, Copy, Debug, PartialEq, Eq, Structural)]
pub struct Relay {
    pub mark: u32,
    pub phase: Phase,
}

/// The state after `event` and what is to be done then.
///
/// The first poll sets the mark and is followed at once by a second one;
/// every later poll sets the mark, has its mails handed on one by one in
/// the order fetched, and is followed by a sleep, after which the mailbox is
/// polled again. A failure stops the relay, and so does an event that does
/// not belong to the phase.
pub open spec fn step_of(relay: Relay, event: Event) -> (Relay, Action) {
    match (relay.phase, event) {
        (Phase::Start, Event::Started) => (
            Relay { mark: 0, phase: Phase::Priming },
            Action::Fetch { after: 0 },
        ),
        (Phase::Priming, Event::Fetched { exists, mails }) => (
            Relay { mark: mark_after(relay.mark, exists), phase: Phase::Polling },
            Action::Fetch { after: mark_after(relay.mark, exists) },
        ),
        (Phase::Polling, Event::Fetched { exists, mails }) => if mails > 0 {
            (
                Relay {
                    mark: mark_after(relay.mark, exists),
                    phase: Phase::Sending { next: 0, count: mails },
                },
                Action::Send { index: 0 },
            )
        } else {
            (
                Relay { mark: mark_after(relay.mark, exists), phase: Phase::Sleeping },
                Action::Sleep { seconds: POLL_INTERVAL },
            )
        },
        (Phase::Sending { next, count }, Event::Sent) => if next + 1 < count {
            (
                Relay {
                    mark: relay.mark,
                    phase: Phase::Sending { next: (next + 1) as usize, count },
                },
                Action::Send { index: (next + 1) as usize },
            )
        } else {
            (
                Relay { mark: relay.mark, phase: Phase::Sleeping },
                Action::Sleep { seconds: POLL_INTERVAL },
            )
        },
        (Phase::Sleeping, Event::Slept) => (
            Relay { mark: relay.mark, phase: Phase::Polling },
            Action::Fetch { after: relay.mark },
        ),
        _ => (Relay { mark: relay.mark, phase: Phase::Stopped }, Action::Stop),
    }
}

impl Relay {
    /// A relay that has not started.
    pub fn new() -> (r: Relay)
        ensures
            r == (Relay { mark: 0, phase: Phase::Start }),
    {
        Relay { mark: 0, phase: Phase::Start }
    }

    /// Takes `event` in and says what is to be done next.
    pub fn step(&mut self, event: Event) -> (action: Action)
        ensures
            (*final(self), action) == step_of(*old(self), event),
    {
        let (next, action) = match (self.phase, event) {
            (Phase::Start, Event::Started) => (
                Relay { mark: 0, phase: Phase::Priming },
                Action::Fetch { after: 0 },
            ),
            (Phase::Priming, Event::Fetched { exists, mails }) => {
                let mark = next_mark(self.mark, exists);
                (Relay { mark, phase: Phase::Polling }, Action::Fetch { after: mark })
            },
            (Phase::Polling, Event::Fetched { exists, mails }) => {
                let mark = next_mark(self.mark, exists);
                if mails > 0 {
                    (
                        Relay { mark, phase: Phase::Sending { next: 0, count: mails } },
                        Action::Send { index: 0 },
                    )
                } else {
                    (
                        Relay { mark, phase: Phase::Sleeping },
                        Action::Sleep { seconds: POLL_INTERVAL },
                    )
                }
            },
            (Phase::Sending { next, count }, Event::Sent) => {
                if next < count && next + 1 < count {
                    (
                        Relay { mark: self.mark, phase: Phase::Sending { next: next + 1, count } },
                        Action::Send { index: next + 1 },
                    )
                } else {
                    (
                        Relay { mark: self.mark, phase: Phase::Sleeping },
                        Action::Sleep { seconds: POLL_INTERVAL },
                    )
                }
            },
            (Phase::Sleeping, Event::Slept) => (
                Relay { mark: self.mark, phase: Phase::Polling },
                Action::Fetch { after: self.mark },
            ),
            _ => (Relay { mark: self.mark, phase: Phase::Stopped }, Action::Stop),
        };
        *self = next;
        action
    }
}

/// The mark never goes down.
pub proof fn lemma_mark_grows(relay: Relay, event: Event)
    requires
        relay.phase != Phase::Start,
    ensures
        step_of(relay, event).0.mark >= relay.mark,
{
}

/// A mail is handed on only from a poll that fetched it: every `Send` names
/// a mail of the batch under way.
pub proof fn lemma_send_in_batch(relay: Relay, event: Event)
    ensures
        step_of(relay, event).1 matches Action::Send { index } ==> step_of(
            relay,
            event,
        ).0.phase matches Phase::Sending { next, count } && index == next && next < count,
{
}

} // verus!
