use vstd::prelude::*;

verus! {

/// A listener for events of type `E`.
///
/// A subscriber is registered on a [`crate::Channel`] (or through a
/// [`crate::Hub`]) and is handed every event published on that channel, in
/// registration order, until it is unsubscribed. A single type may implement
/// `Subscriber` for several event types at once; each implementation is
/// addressed independently, one channel per event type.
///
/// The two spec functions are the implementor's own model of `receive`:
/// `accepts` says on which events, from which states, delivery succeeds, and
/// `after` says what the state becomes when it does. `receive` must answer
/// `Ok` exactly when `accepts` holds and, on success, leave the subscriber in
/// the `after` state. On failure the subscriber's state is left unspecified;
/// the channel then treats the subscription as poisoned and surfaces that on
/// every later delivery attempt rather than reusing a possibly inconsistent
/// subscriber.
pub trait Subscriber<E>: Sized {
    /// Whether this subscriber, in its current state, handles `event`
    /// successfully.
    spec fn accepts(&self, event: &E) -> bool;

    /// The state this subscriber is in after successfully handling `event`.
    spec fn after(&self, event: &E) -> Self;

    /// Handles one published event, mutating the subscriber's own state.
    ///
    /// Failure is reported to the publisher, not swallowed: a channel's
    /// `publish` stops at the first subscriber whose `receive` answers `Err`.
    fn receive(&mut self, event: &E) -> (r: Result<(), ()>)
        ensures
            (r is Ok) == old(self).accepts(event),
            r is Ok ==> *final(self) == old(self).after(event),
    ;
}

} // verus!
