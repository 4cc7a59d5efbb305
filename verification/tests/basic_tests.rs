use pubsubhub::Channel;
use pubsubhub::Subscriber;

struct A {
    a: i32,
}

struct Listener {}

impl Subscriber<A> for Listener {
    fn accepts(&self, event: &A) -> bool {
        event.a != 123
    }

    fn after(&self, _event: &A) -> Self {
        Listener {}
    }

    fn receive(&mut self, event: &A) -> Result<(), ()> {
        if event.a == 123 {
            Err(())
        } else {
            Ok(())
        }
    }
}

#[test]
pub fn test_can_subscribe() {
    let mut pubsub = Channel::<A, Listener>::new();
    let l = Listener {};
    let _ = pubsub.subscribe(l);

    assert_eq!(pubsub.subscriber_count(), 1);

    let _ = pubsub.subscribe(Listener {});
    assert_eq!(pubsub.subscriber_count(), 2);
}

#[test]
pub fn test_can_publish() {
    let mut pubsub = Channel::<A, Listener>::new();
    let l = Listener {};
    let _ = pubsub.subscribe(l);

    for i in 0..122 {
        let event = A { a: i };
        let delivered = pubsub.publish(&event);
        assert!(delivered.is_ok());
    }

    let result = pubsub.publish(&A { a: 123 });
    assert_eq!(result.is_err(), true);
}

#[test]
pub fn test_can_unsubscribe() {
    let mut pubsub = Channel::<A, Listener>::new();
    let l1 = Listener {};
    let l2 = Listener {};

    let l1_handle = pubsub.subscribe(l1);
    let l2_handle = pubsub.subscribe(l2);

    assert_eq!(pubsub.subscriber_count(), 2);

    pubsub.unsubscribe(&l1_handle);

    assert_eq!(pubsub.subscriber_count(), 1);

    pubsub.unsubscribe(&l2_handle);

    assert_eq!(pubsub.subscriber_count(), 0);

    let result = pubsub.publish(&A { a: 123 });
    assert!(result.is_ok());
}
