use streamfly::msg::{MsgAck, MsgOpenStream, MsgRequest, MsgType, RequestError};

fn url_safe(c: char) -> bool {
    c.is_ascii_alphanumeric() || c == '_' || c == '-'
}

#[test]
fn request_gets_fresh_identifier() {
    let a = MsgRequest::new(MsgType::Subcribe, vec![1, 2, 3]);
    let b = MsgRequest::new(MsgType::Subcribe, vec![]);
    assert_eq!(a.msg_type, MsgType::Subcribe);
    assert_eq!(a.payload, vec![1, 2, 3]);
    assert_eq!(a.tid.chars().count(), 21);
    assert!(a.tid.chars().all(url_safe));
    assert!(b.tid.chars().all(url_safe));
    assert_ne!(a.tid, b.tid);
}

#[test]
fn announced_stream_keeps_channel() {
    let channel = String::from("demo-streamfly");
    let m = MsgOpenStream::announce(&channel);
    assert_eq!(m.channel, "demo-streamfly");
    assert_eq!(m.stream_id.chars().count(), 21);
    assert!(m.stream_id.chars().all(url_safe));
    let n = MsgOpenStream::announce(&channel);
    assert_ne!(m.stream_id, n.stream_id);
}

#[test]
fn acknowledgement_accepts_its_request() {
    let req = MsgRequest::new(MsgType::Subcribe, vec![]);
    let ack = MsgAck::accept(&req.tid);
    assert_eq!(ack.tid, req.tid);
    assert_eq!(ack.error, "");
    assert_eq!(ack.check(&req.tid), Ok(()));
}

#[test]
fn acknowledgement_of_other_request_refused() {
    let ack = MsgAck::accept(&String::from("aaa"));
    assert_eq!(ack.check(&String::from("bbb")), Err(RequestError::TidMismatched));
    assert_eq!(RequestError::TidMismatched.message(), "tid mismatched");
}

#[test]
fn acknowledgement_with_error_refused() {
    let ack = MsgAck { tid: String::from("t1"), error: String::from("no such channel") };
    let e = ack.check(&String::from("t1")).unwrap_err();
    assert_eq!(e, RequestError::Rejected(String::from("no such channel")));
    assert_eq!(e.message(), "no such channel");
}

#[test]
fn mismatch_wins_over_error_text() {
    let ack = MsgAck { tid: String::from("t1"), error: String::from("boom") };
    assert_eq!(ack.check(&String::from("t2")), Err(RequestError::TidMismatched));
}
