use email_auth::message::RawMessage;

fn pairs(msg: &RawMessage) -> Vec<(Vec<u8>, Vec<u8>)> {
    msg.headers().iter().map(|h| (h.name().to_vec(), h.value().to_vec())).collect()
}

#[test]
fn splits_at_the_first_empty_line() {
    let msg = RawMessage::parse(b"From: a@x.com\r\nTo: b@y.com\r\n\r\nhi\r\n\r\nthere\r\n");
    assert_eq!(
        pairs(&msg),
        vec![
            (b"From".to_vec(), b" a@x.com\r\n".to_vec()),
            (b"To".to_vec(), b" b@y.com\r\n".to_vec())
        ]
    );
    assert_eq!(msg.body(), b"hi\r\n\r\nthere\r\n");
}

#[test]
fn accepts_bare_line_feeds() {
    let msg = RawMessage::parse(b"A: 1\nB: 2\n\nbody");
    assert_eq!(
        pairs(&msg),
        vec![(b"A".to_vec(), b" 1\n".to_vec()), (b"B".to_vec(), b" 2\n".to_vec())]
    );
    assert_eq!(msg.body(), b"body");
}

#[test]
fn without_an_empty_line_the_body_is_empty() {
    let msg = RawMessage::parse(b"A: 1\r\nB: 2\r\n");
    assert_eq!(msg.headers().len(), 2);
    assert_eq!(msg.body(), b"");
    let msg = RawMessage::parse(b"A: 1");
    assert_eq!(pairs(&msg), vec![(b"A".to_vec(), b" 1".to_vec())]);
    assert_eq!(msg.body(), b"");
}

#[test]
fn an_empty_message_has_nothing() {
    let msg = RawMessage::parse(b"");
    assert_eq!(msg.headers().len(), 0);
    assert_eq!(msg.body(), b"");
}

#[test]
fn a_message_may_begin_with_the_empty_line() {
    let msg = RawMessage::parse(b"\r\nA: 1\r\n");
    assert_eq!(msg.headers().len(), 0);
    assert_eq!(msg.body(), b"A: 1\r\n");
}

#[test]
fn keeps_folds_in_the_value() {
    let msg = RawMessage::parse(b"Subject: a\r\n b\r\n\tc\r\nTo: x\r\n\r\n");
    assert_eq!(
        pairs(&msg),
        vec![
            (b"Subject".to_vec(), b" a\r\n b\r\n\tc\r\n".to_vec()),
            (b"To".to_vec(), b" x\r\n".to_vec())
        ]
    );
    assert_eq!(msg.body(), b"");
}

#[test]
fn the_value_begins_after_the_first_colon() {
    let msg = RawMessage::parse(b"Date: 12:30:00\r\n\r\n");
    assert_eq!(pairs(&msg), vec![(b"Date".to_vec(), b" 12:30:00\r\n".to_vec())]);
}

#[test]
fn a_line_without_a_colon_is_no_header() {
    let msg = RawMessage::parse(b"A: 1\r\nnot a header\r\nB: 2\r\n\r\nx");
    assert_eq!(
        pairs(&msg),
        vec![(b"A".to_vec(), b" 1\r\n".to_vec()), (b"B".to_vec(), b" 2\r\n".to_vec())]
    );
    assert_eq!(msg.body(), b"x");
}

#[test]
fn headers_of_one_name_are_kept_apart_and_in_order() {
    let msg = RawMessage::parse(
        b"Received: one\r\nSubject: s\r\nreceived : two\r\nRECEIVED: three\r\n\r\n",
    );
    assert_eq!(msg.headers_named(b"Received"), vec![0, 2, 3]);
    assert_eq!(msg.headers_named(b"subject"), vec![1]);
    assert_eq!(msg.headers_named(b"from"), Vec::<usize>::new());
    assert_eq!(msg.find_from_end(b"received", 0), Some(3));
    assert_eq!(msg.find_from_end(b"received", 1), Some(2));
    assert_eq!(msg.find_from_end(b"received", 2), Some(0));
    assert_eq!(msg.find_from_end(b"received", 3), None);
    assert_eq!(msg.find_from_end(b"from", 0), None);
    assert!(msg.headers()[2].is_named(b"Received"));
    assert!(!msg.headers()[1].is_named(b"Received"));
}
