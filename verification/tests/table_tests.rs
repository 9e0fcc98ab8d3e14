use streamfly::broker::Broker;
use streamfly::client::{ClientError, Subscriptions};
use streamfly::registry::Registry;

fn s(x: &str) -> String {
    x.to_string()
}

fn sorted(mut v: Vec<String>) -> Vec<String> {
    v.sort();
    v
}

#[test]
fn registry_insert_get_remove() {
    let mut r: Registry<u32> = Registry::new();
    assert!(!r.contains_key(&s("a")));
    assert_eq!(r.insert(s("a"), 1), None);
    assert_eq!(r.insert(s("b"), 2), None);
    assert_eq!(r.get(&s("a")), Some(&1));
    assert_eq!(r.insert(s("a"), 3), Some(1));
    assert_eq!(r.get(&s("a")), Some(&3));
    assert_eq!(r.get(&s("b")), Some(&2));
    assert_eq!(r.remove(&s("a")), Some(3));
    assert_eq!(r.remove(&s("a")), None);
    assert_eq!(r.get(&s("a")), None);
    assert!(r.contains_key(&s("b")));
    r.clear();
    assert!(!r.contains_key(&s("b")));
}

#[test]
fn registry_keys_on_channel() {
    let mut r: Registry<(String, u8)> = Registry::new();
    r.insert(s("x"), (s("red"), 1));
    r.insert(s("y"), (s("blue"), 2));
    r.insert(s("z"), (s("red"), 3));
    assert_eq!(sorted(r.keys_on(&s("red"))), vec![s("x"), s("z")]);
    assert_eq!(r.keys_on(&s("blue")), vec![s("y")]);
    assert!(r.keys_on(&s("green")).is_empty());
}

#[test]
fn second_subscription_refused() {
    let mut subs: Subscriptions<u32> = Subscriptions::new();
    assert_eq!(subs.check_new(&s("news")), Ok(()));
    subs.add(s("news"), 7);
    assert_eq!(subs.check_new(&s("news")), Err(ClientError::AlreadySubscribed));
    assert_eq!(ClientError::AlreadySubscribed.message(), "This channel has been subscribed.");
    assert_eq!(subs.check_new(&s("sport")), Ok(()));
    assert_eq!(subs.route(&s("news")), Some(&7));
    assert_eq!(subs.route(&s("sport")), None);
}

#[test]
fn dropped_channel_can_be_subscribed_again() {
    let mut subs: Subscriptions<u32> = Subscriptions::new();
    subs.add(s("a"), 1);
    subs.add(s("b"), 2);
    assert_eq!(subs.drop_channel(&s("a")), Some(1));
    assert_eq!(subs.drop_channel(&s("a")), None);
    assert_eq!(subs.check_new(&s("a")), Ok(()));
    assert_eq!(subs.route(&s("b")), Some(&2));
    subs.clear();
    assert_eq!(subs.route(&s("b")), None);
}

#[test]
fn subscriber_receives_later_stream() {
    let mut b: Broker<&str, u32> = Broker::new();
    assert!(b.subscribe(s("10.0.0.1:5"), s("ch"), "h1").is_empty());
    b.subscribe(s("10.0.0.2:5"), s("other"), "h2");
    assert_eq!(b.subscribers_of(&s("ch")), vec![s("10.0.0.1:5")]);
    assert_eq!(b.handle_of(&s("10.0.0.1:5")), Some(&"h1"));
    assert_eq!(b.handle_of(&s("10.0.0.3:5")), None);
    b.publish(s("st1"), s("ch"), vec![100]);
    assert_eq!(b.senders_of(&s("st1")), Some(&vec![100]));
}

#[test]
fn later_subscriber_gets_existing_streams() {
    let mut b: Broker<&str, u32> = Broker::new();
    b.publish(s("st1"), s("ch"), vec![]);
    b.publish(s("st2"), s("ch"), vec![]);
    b.publish(s("st3"), s("x"), vec![]);
    let ids = b.subscribe(s("peer"), s("ch"), "h");
    assert_eq!(sorted(ids), vec![s("st1"), s("st2")]);
    assert!(b.attach(&s("st1"), 5));
    assert!(b.attach(&s("st1"), 6));
    assert!(!b.attach(&s("gone"), 7));
    assert_eq!(b.senders_of(&s("st1")), Some(&vec![5, 6]));
    assert_eq!(b.senders_of(&s("gone")), None);
}

#[test]
fn resubscribing_moves_to_new_channel() {
    let mut b: Broker<u8, u8> = Broker::new();
    b.subscribe(s("p"), s("a"), 1);
    b.subscribe(s("p"), s("b"), 2);
    assert!(b.subscribers_of(&s("a")).is_empty());
    assert_eq!(b.subscribers_of(&s("b")), vec![s("p")]);
    assert_eq!(b.handle_of(&s("p")), Some(&2));
}

#[test]
fn departed_subscriber_is_forgotten() {
    let mut b: Broker<u8, u8> = Broker::new();
    b.subscribe(s("p"), s("a"), 1);
    assert_eq!(b.unsubscribe(&s("p")), Some(s("a")));
    assert_eq!(b.unsubscribe(&s("p")), None);
    assert!(b.subscribers_of(&s("a")).is_empty());
}

#[test]
fn closed_senders_are_pruned() {
    let mut b: Broker<u8, u32> = Broker::new();
    b.publish(s("st"), s("c"), vec![1, 2, 3, 4]);
    b.retain_senders(&s("st"), &vec![true, false, true, false]);
    assert_eq!(b.senders_of(&s("st")), Some(&vec![1, 3]));
    b.retain_senders(&s("st"), &vec![true]);
    assert_eq!(b.senders_of(&s("st")), Some(&vec![1]));
    b.retain_senders(&s("none"), &vec![]);
    assert_eq!(b.senders_of(&s("none")), None);
}

#[test]
fn ended_stream_is_not_offered() {
    let mut b: Broker<u8, u32> = Broker::new();
    b.publish(s("st"), s("c"), vec![]);
    assert!(b.unpublish(&s("st")));
    assert!(!b.unpublish(&s("st")));
    assert!(b.subscribe(s("p"), s("c"), 0).is_empty());
}
