use streamfly::client::Subscriptions;
use streamfly::msg::{MsgAck, MsgRequest, MsgType, RequestError};
use streamfly::relay::accumulate;

#[test]
fn accepted_subscription_is_recorded() {
    let mut subs: Subscriptions<u32> = Subscriptions::new();
    let req = MsgRequest::new(MsgType::Subcribe, vec![]);
    let ack = MsgAck::accept(&req.tid);
    assert_eq!(subs.confirm(String::from("news"), &req.tid, &ack, 9), Ok(()));
    assert_eq!(subs.route(&String::from("news")), Some(&9));
    assert!(subs.check_new(&String::from("news")).is_err());
}

#[test]
fn refused_subscription_leaves_no_trace() {
    let mut subs: Subscriptions<u32> = Subscriptions::new();
    let tid = String::from("t1");
    let ack = MsgAck { tid: tid.clone(), error: String::from("denied") };
    assert_eq!(
        subs.confirm(String::from("news"), &tid, &ack, 9),
        Err(RequestError::Rejected(String::from("denied")))
    );
    assert_eq!(subs.route(&String::from("news")), None);
    assert_eq!(subs.check_new(&String::from("news")), Ok(()));
}

#[test]
fn mismatched_acknowledgement_leaves_no_trace() {
    let mut subs: Subscriptions<u32> = Subscriptions::new();
    let ack = MsgAck::accept(&String::from("other"));
    assert_eq!(
        subs.confirm(String::from("news"), &String::from("mine"), &ack, 9),
        Err(RequestError::TidMismatched)
    );
    assert_eq!(subs.route(&String::from("news")), None);
}

#[test]
fn chunks_accumulate_in_order() {
    let mut packet = Vec::new();
    accumulate(&mut packet, b"abc");
    accumulate(&mut packet, b"");
    accumulate(&mut packet, b"de");
    assert_eq!(packet, b"abcde".to_vec());
}
