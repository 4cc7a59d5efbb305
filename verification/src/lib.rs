//! An in-process publish/subscribe hub.
//!
//! A [`Channel`] carries one kind of event: callers register listeners with
//! `subscribe`, fan an event out to every registered listener with `publish`,
//! and deregister a listener with `unsubscribe`, using the [`Handle`] that
//! `subscribe` returned. A [`Hub`] composes one channel per event type, so
//! that publishing on one event type never touches the listeners of another.
//!
//! Delivery is synchronous and fail-fast: `publish` walks the channel's
//! current registrations in order and stops at the first listener whose
//! `receive` fails, poisoning that subscription so it is never silently
//! reused. Exclusive access to a channel and to each listener under delivery
//! is enforced by ownership: every mutating operation takes the channel by
//! exclusive borrow, so registrations can never be observed mid-mutation.
//!
//! The [`laws`] module states and proves the channel's laws across whole
//! runs of calls: what any number of subscriptions leaves in a channel, that
//! a successful publish delivers to every registration exactly once, and
//! that an unsubscribed listener is never delivered to again.

pub mod channel;
pub mod hub;
pub mod laws;
pub mod subscriber;

pub use channel::Channel;
pub use channel::Entry;
pub use channel::Handle;
pub use channel::PublishError;
pub use hub::Hub;
pub use subscriber::Subscriber;
