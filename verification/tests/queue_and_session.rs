use aggregator::queue::{Offer, OutboundQueue, Pull};
use aggregator::session::{Action, Phase, Role, Session, Signal};
use aggregator::tier::Tier;

#[test]
fn queue_is_first_in_first_out() {
    let mut queue = OutboundQueue::new(100);
    for tag in 0..50 {
        assert_eq!(queue.enqueue(format!("event-{tag}")), Offer::Queued);
    }
    assert_eq!(queue.len(), 50);
    for tag in 0..20 {
        assert_eq!(queue.dequeue(), Some(format!("event-{tag}")));
    }
    for tag in 50..60 {
        assert_eq!(queue.enqueue(format!("event-{tag}")), Offer::Queued);
    }
    for tag in 20..60 {
        assert_eq!(queue.dequeue(), Some(format!("event-{tag}")));
    }
    assert_eq!(queue.dequeue(), None);
    assert_eq!(queue.len(), 0);
    assert!(queue.is_open());
}

#[test]
fn queue_starts_open_and_empty() {
    let mut queue = OutboundQueue::new(3);
    assert!(queue.is_open());
    assert_eq!(queue.len(), 0);
    assert_eq!(queue.capacity(), 3);
    assert_eq!(queue.dequeue(), None);
}

#[test]
fn queue_closes_on_overflow() {
    let mut queue = OutboundQueue::new(2);
    assert_eq!(queue.enqueue(String::from("a")), Offer::Queued);
    assert_eq!(queue.enqueue(String::from("b")), Offer::Queued);
    assert_eq!(queue.enqueue(String::from("c")), Offer::Overflowed);
    assert!(!queue.is_open());
    assert_eq!(queue.len(), 2);
    assert_eq!(queue.enqueue(String::from("d")), Offer::Refused);
    assert_eq!(queue.dequeue(), Some(String::from("a")));
    // Room again, but closed for good.
    assert_eq!(queue.enqueue(String::from("e")), Offer::Refused);
    assert_eq!(queue.dequeue(), Some(String::from("b")));
    assert_eq!(queue.dequeue(), None);
}

#[test]
fn queue_without_room_overflows_at_once() {
    let mut queue = OutboundQueue::new(0);
    assert_eq!(queue.enqueue(String::from("a")), Offer::Overflowed);
    assert_eq!(queue.enqueue(String::from("b")), Offer::Refused);
    assert_eq!(queue.len(), 0);
}

#[test]
fn closed_queue_refuses_and_still_drains() {
    let mut queue = OutboundQueue::new(5);
    assert_eq!(queue.enqueue(String::from("a")), Offer::Queued);
    queue.close();
    assert!(!queue.is_open());
    assert_eq!(queue.capacity(), 5);
    assert_eq!(queue.enqueue(String::from("b")), Offer::Refused);
    assert_eq!(queue.len(), 1);
    assert_eq!(queue.dequeue(), Some(String::from("a")));
    assert_eq!(queue.dequeue(), None);
}

#[test]
fn consumer_subscribes_with_its_first_message() {
    let mut session = Session::new(Role::Consumer);
    assert_eq!(session.phase, Phase::AwaitingSubscription);
    assert_eq!(session.step(Signal::Text("SUBSCRIBE:important")), Action::Subscribe(Tier::ImportantOnly));
    assert_eq!(session.phase, Phase::Active);
    assert_eq!(session.tier, Tier::ImportantOnly);
    // Later messages never change the tier, whatever they say.
    assert_eq!(session.step(Signal::Text("SUBSCRIBE:all")), Action::Nothing);
    assert_eq!(session.tier, Tier::ImportantOnly);
    assert_eq!(session.phase, Phase::Active);
}

#[test]
fn consumer_without_subscription_gets_everything() {
    let signals = [
        Signal::Text("SUBSCRIBE:all"),
        Signal::Text("hello"),
        Signal::Text(""),
        Signal::Silence,
        Signal::Closed,
        Signal::Other,
    ];
    for signal in signals {
        let mut session = Session::new(Role::Consumer);
        assert_eq!(session.step(signal), Action::Subscribe(Tier::All), "{signal:?}");
        assert_eq!(session.phase, Phase::Active);
        assert_eq!(session.tier, Tier::All);
    }
}

#[test]
fn consumer_that_left_during_the_handshake_is_torn_down_next() {
    let mut session = Session::new(Role::Consumer);
    assert_eq!(session.step(Signal::Closed), Action::Subscribe(Tier::All));
    assert_eq!(session.step(Signal::Closed), Action::Teardown { deregister: true });
    assert_eq!(session.phase, Phase::Closed);
}

#[test]
fn producer_texts_are_processed() {
    let mut session = Session::new(Role::Producer);
    assert_eq!(session.phase, Phase::Active);
    assert_eq!(session.step(Signal::Text("SUBSCRIBE:important")), Action::Process);
    assert_eq!(session.step(Signal::Text("404|x")), Action::Process);
    assert_eq!(session.step(Signal::Other), Action::Nothing);
    assert_eq!(session.step(Signal::Silence), Action::Nothing);
    assert_eq!(session.phase, Phase::Active);
    assert_eq!(session.step(Signal::Closed), Action::Teardown { deregister: false });
    assert_eq!(session.phase, Phase::Closed);
}

#[test]
fn session_is_torn_down_once() {
    for first in [Signal::Closed, Signal::WriteFailed] {
        let mut session = Session::new(Role::Consumer);
        session.step(Signal::Text("SUBSCRIBE:all"));
        assert_eq!(session.step(first), Action::Teardown { deregister: true });
        for later in [Signal::Closed, Signal::WriteFailed, Signal::Text("x"), Signal::Other, Signal::Silence] {
            assert_eq!(session.step(later), Action::Nothing);
            assert_eq!(session.phase, Phase::Closed);
        }
    }
}

#[test]
fn write_failure_before_subscription_has_nothing_to_deregister() {
    let mut session = Session::new(Role::Consumer);
    assert_eq!(session.step(Signal::WriteFailed), Action::Teardown { deregister: false });
    assert_eq!(session.phase, Phase::Closed);
    assert_eq!(session.step(Signal::Text("SUBSCRIBE:important")), Action::Nothing);
}

#[test]
fn pull_hands_out_work_until_the_queue_closes() {
    let mut queue = OutboundQueue::new(4);
    assert_eq!(queue.pull(), Pull::Idle);
    queue.enqueue(String::from("a"));
    queue.enqueue(String::from("b"));
    queue.enqueue(String::from("c"));
    assert_eq!(queue.pull(), Pull::Payload(String::from("a")));
    assert_eq!(queue.pull(), Pull::Payload(String::from("b")));
    queue.close();
    assert_eq!(queue.pull(), Pull::Finished);
    assert_eq!(queue.len(), 1);
    assert_eq!(queue.pull(), Pull::Finished);
    assert_eq!(queue.dequeue(), Some(String::from("c")));
}
