use email_auth::relay::{
    mail_payload, mail_text, next_mark, sequence_set, Action, Event, Phase, Relay, POLL_INTERVAL,
};

#[test]
fn new_messages_are_named_by_their_numbers() {
    assert_eq!(sequence_set(0, 3), Some("1,2,3".to_string()));
    assert_eq!(sequence_set(8, 11), Some("9,10,11".to_string()));
    assert_eq!(sequence_set(4, 5), Some("5".to_string()));
    assert_eq!(sequence_set(u32::MAX - 1, u32::MAX), Some("4294967295".to_string()));
    assert_eq!(sequence_set(99, 101), Some("100,101".to_string()));
}

#[test]
fn without_new_messages_nothing_is_fetched() {
    assert_eq!(sequence_set(3, 3), None);
    assert_eq!(sequence_set(5, 2), None);
    assert_eq!(sequence_set(0, 0), None);
}

#[test]
fn the_mark_follows_the_mailbox_upwards() {
    assert_eq!(next_mark(0, 3), 3);
    assert_eq!(next_mark(3, 3), 3);
    assert_eq!(next_mark(5, 2), 5);
}

#[test]
fn a_mail_is_handed_on_as_an_array_of_its_bytes() {
    assert_eq!(mail_payload("hi"), b"{\"full_email\":[104,105]}".to_vec());
    assert_eq!(mail_payload(""), b"{\"full_email\":[]}".to_vec());
    assert_eq!(mail_payload("\u{e9}\n"), b"{\"full_email\":[195,169,10]}".to_vec());
    assert_eq!(mail_payload("\0"), b"{\"full_email\":[0]}".to_vec());
}

#[test]
fn a_fetched_message_is_text_where_it_is_utf8() {
    assert_eq!(mail_text(b"From: a\r\n\r\nhi"), Some("From: a\r\n\r\nhi".to_string()));
    assert_eq!(mail_text(b"\xc3\xa9"), Some("\u{e9}".to_string()));
    assert_eq!(mail_text(b""), Some(String::new()));
    assert_eq!(mail_text(b"\xff"), None);
    assert_eq!(mail_text(b"a\xc3"), None);
}

#[test]
fn the_relay_primes_polls_sends_and_sleeps() {
    let mut relay = Relay::new();
    assert_eq!(relay, Relay { mark: 0, phase: Phase::Start });
    assert_eq!(relay.step(Event::Started), Action::Fetch { after: 0 });
    assert_eq!(relay.phase, Phase::Priming);
    assert_eq!(relay.step(Event::Fetched { exists: 7, mails: 7 }), Action::Fetch { after: 7 });
    assert_eq!(relay, Relay { mark: 7, phase: Phase::Polling });
    assert_eq!(
        relay.step(Event::Fetched { exists: 7, mails: 0 }),
        Action::Sleep { seconds: POLL_INTERVAL }
    );
    assert_eq!(relay, Relay { mark: 7, phase: Phase::Sleeping });
    assert_eq!(relay.step(Event::Slept), Action::Fetch { after: 7 });
    assert_eq!(relay.step(Event::Fetched { exists: 9, mails: 2 }), Action::Send { index: 0 });
    assert_eq!(relay, Relay { mark: 9, phase: Phase::Sending { next: 0, count: 2 } });
    assert_eq!(relay.step(Event::Sent), Action::Send { index: 1 });
    assert_eq!(relay.step(Event::Sent), Action::Sleep { seconds: 10 });
    assert_eq!(relay, Relay { mark: 9, phase: Phase::Sleeping });
    assert_eq!(relay.step(Event::Slept), Action::Fetch { after: 9 });
    assert_eq!(relay.step(Event::Fetched { exists: 4, mails: 0 }), Action::Sleep { seconds: 10 });
    assert_eq!(relay.mark, 9);
}

#[test]
fn a_failure_stops_the_relay() {
    let mut relay = Relay::new();
    relay.step(Event::Started);
    assert_eq!(relay.step(Event::Failed), Action::Stop);
    assert_eq!(relay.phase, Phase::Stopped);
    assert_eq!(relay.step(Event::Slept), Action::Stop);
    assert_eq!(relay.step(Event::Started), Action::Stop);
    assert_eq!(relay.phase, Phase::Stopped);
}

#[test]
fn an_event_out_of_turn_stops_the_relay() {
    let mut relay = Relay::new();
    assert_eq!(relay.step(Event::Sent), Action::Stop);
    let mut relay = Relay { mark: 3, phase: Phase::Sleeping };
    assert_eq!(relay.step(Event::Fetched { exists: 9, mails: 1 }), Action::Stop);
    assert_eq!(relay, Relay { mark: 3, phase: Phase::Stopped });
    let mut relay = Relay { mark: 3, phase: Phase::Sending { next: usize::MAX, count: 2 } };
    assert_eq!(relay.step(Event::Sent), Action::Sleep { seconds: 10 });
}
