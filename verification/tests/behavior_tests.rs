use pubsubhub::Channel;
use pubsubhub::Hub;
use pubsubhub::PublishError;
use pubsubhub::Subscriber;

struct A {
    a: i32,
}

struct ACount {
    seen: i32,
    total: i32,
}

impl Subscriber<A> for ACount {
    fn accepts(&self, _event: &A) -> bool {
        true
    }

    fn after(&self, event: &A) -> Self {
        ACount { seen: self.seen + 1, total: self.total + event.a }
    }

    fn receive(&mut self, event: &A) -> Result<(), ()> {
        self.seen += 1;
        self.total += event.a;
        Ok(())
    }
}

struct Picky {}

impl Subscriber<A> for Picky {
    fn accepts(&self, event: &A) -> bool {
        event.a != 123
    }

    fn after(&self, _event: &A) -> Self {
        Picky {}
    }

    fn receive(&mut self, event: &A) -> Result<(), ()> {
        if event.a == 123 {
            Err(())
        } else {
            Ok(())
        }
    }
}

struct B {
    amount: i32,
}

struct BCount {
    seen: i32,
    amount_sum: i32,
}

impl Subscriber<B> for BCount {
    fn accepts(&self, _event: &B) -> bool {
        true
    }

    fn after(&self, event: &B) -> Self {
        BCount { seen: self.seen + 1, amount_sum: self.amount_sum + event.amount }
    }

    fn receive(&mut self, event: &B) -> Result<(), ()> {
        self.seen += 1;
        self.amount_sum += event.amount;
        Ok(())
    }
}

#[test]
fn test_subscribe_issues_distinct_handles() {
    let mut channel = Channel::<A, ACount>::new();
    let h1 = channel.subscribe(ACount { seen: 0, total: 0 });
    let h2 = channel.subscribe(ACount { seen: 0, total: 0 });
    let h3 = channel.subscribe(ACount { seen: 0, total: 0 });

    assert_eq!(channel.subscriber_count(), 3);
    assert!(!h1.same_identity(&h2));
    assert!(!h1.same_identity(&h3));
    assert!(!h2.same_identity(&h3));
    assert!(channel.contains(&h1));
    assert!(channel.contains(&h2));
    assert!(channel.contains(&h3));
}

#[test]
fn test_publish_delivers_to_each_exactly_once() {
    let mut channel = Channel::<A, ACount>::new();
    let h1 = channel.subscribe(ACount { seen: 0, total: 0 });
    let h2 = channel.subscribe(ACount { seen: 0, total: 0 });

    assert!(channel.publish(&A { a: 5 }).is_ok());
    let first = channel.get(&h1).unwrap();
    assert_eq!(first.seen, 1);
    assert_eq!(first.total, 5);
    let second = channel.get(&h2).unwrap();
    assert_eq!(second.seen, 1);
    assert_eq!(second.total, 5);

    assert!(channel.publish(&A { a: 2 }).is_ok());
    let first = channel.get(&h1).unwrap();
    assert_eq!(first.seen, 2);
    assert_eq!(first.total, 7);
    let second = channel.get(&h2).unwrap();
    assert_eq!(second.seen, 2);
    assert_eq!(second.total, 7);
}

#[test]
fn test_unsubscribe_removes_exactly_that_entry() {
    let mut channel = Channel::<A, ACount>::new();
    let h1 = channel.subscribe(ACount { seen: 0, total: 0 });
    let h2 = channel.subscribe(ACount { seen: 0, total: 0 });

    channel.unsubscribe(&h1);

    assert_eq!(channel.subscriber_count(), 1);
    assert!(!channel.contains(&h1));
    assert!(channel.contains(&h2));
    assert!(channel.get(&h1).is_none());

    assert!(channel.publish(&A { a: 1 }).is_ok());
    let survivor = channel.get(&h2).unwrap();
    assert_eq!(survivor.seen, 1);
}

#[test]
fn test_unsubscribe_unknown_handle_is_noop() {
    let mut channel = Channel::<A, ACount>::new();
    let h1 = channel.subscribe(ACount { seen: 0, total: 0 });
    let h2 = channel.subscribe(ACount { seen: 0, total: 0 });

    channel.unsubscribe(&h1);
    assert_eq!(channel.subscriber_count(), 1);

    channel.unsubscribe(&h1);
    assert_eq!(channel.subscriber_count(), 1);
    assert!(channel.contains(&h2));
}

enum Mixed {
    Count(i32),
    Fussy,
}

impl Subscriber<A> for Mixed {
    fn accepts(&self, event: &A) -> bool {
        match self {
            Mixed::Count(_) => true,
            Mixed::Fussy => event.a != 123,
        }
    }

    fn after(&self, _event: &A) -> Self {
        match self {
            Mixed::Count(n) => Mixed::Count(n + 1),
            Mixed::Fussy => Mixed::Fussy,
        }
    }

    fn receive(&mut self, event: &A) -> Result<(), ()> {
        match self {
            Mixed::Count(n) => {
                *n += 1;
                Ok(())
            }
            Mixed::Fussy => {
                if event.a == 123 {
                    Err(())
                } else {
                    Ok(())
                }
            }
        }
    }
}

#[test]
fn test_publish_fail_fast_skips_later_subscribers() {
    let mut channel = Channel::<A, Mixed>::new();
    let before = channel.subscribe(Mixed::Count(0));
    let fussy = channel.subscribe(Mixed::Fussy);
    let after = channel.subscribe(Mixed::Count(0));

    let result = channel.publish(&A { a: 123 });
    assert!(matches!(result, Err(PublishError::SubscriberFailed { .. })));

    assert!(matches!(channel.get(&before), Some(Mixed::Count(1))));
    assert!(matches!(channel.get(&after), Some(Mixed::Count(0))));
    assert_eq!(channel.is_poisoned(&fussy), Some(true));
    assert_eq!(channel.is_poisoned(&before), Some(false));
    assert_eq!(channel.is_poisoned(&after), Some(false));
    assert_eq!(channel.subscriber_count(), 3);
}

#[test]
fn test_poisoned_subscription_blocks_later_publish() {
    let mut channel = Channel::<A, Picky>::new();
    let h = channel.subscribe(Picky {});

    let failed = channel.publish(&A { a: 123 });
    assert!(matches!(failed, Err(PublishError::SubscriberFailed { .. })));
    assert_eq!(channel.is_poisoned(&h), Some(true));

    let blocked = channel.publish(&A { a: 1 });
    assert!(matches!(blocked, Err(PublishError::LockPoisoned { .. })));

    channel.unsubscribe(&h);
    assert!(channel.publish(&A { a: 1 }).is_ok());
}

#[test]
fn test_channels_are_independent() {
    let mut hub = Hub::<A, ACount, B, BCount>::new();
    let ha = hub.subscribe_a(ACount { seen: 0, total: 0 });
    let hb = hub.subscribe_b(BCount { seen: 0, amount_sum: 0 });

    assert!(hub.publish_a(&A { a: 4 }).is_ok());
    assert!(hub.publish_a(&A { a: 6 }).is_ok());

    let a_listener = hub.get_a(&ha).unwrap();
    assert_eq!(a_listener.seen, 2);
    assert_eq!(a_listener.total, 10);
    let b_listener = hub.get_b(&hb).unwrap();
    assert_eq!(b_listener.seen, 0);

    assert!(hub.publish_b(&B { amount: 3 }).is_ok());
    let a_listener = hub.get_a(&ha).unwrap();
    assert_eq!(a_listener.seen, 2);
    let b_listener = hub.get_b(&hb).unwrap();
    assert_eq!(b_listener.seen, 1);
    assert_eq!(b_listener.amount_sum, 3);

    assert_eq!(hub.count_a(), 1);
    assert_eq!(hub.count_b(), 1);
}

#[test]
fn test_publish_with_no_subscribers_succeeds() {
    let mut channel = Channel::<A, ACount>::new();
    assert_eq!(channel.subscriber_count(), 0);
    assert!(channel.publish(&A { a: 123 }).is_ok());
}

#[test]
fn test_handle_clone_names_same_subscription() {
    let mut channel = Channel::<A, ACount>::new();
    let h = channel.subscribe(ACount { seen: 0, total: 0 });
    let copy = h.clone();

    assert!(h.same_identity(&copy));
    channel.unsubscribe(&copy);
    assert!(!channel.contains(&h));
    assert_eq!(channel.subscriber_count(), 0);
}
