use vstd::prelude::*;

use crate::channel::Channel;
use crate::channel::Handle;
use crate::channel::PublishError;
use crate::channel::index_of_id;
use crate::channel::publish_step;
use crate::channel::subscribe_step;
use crate::channel::unsubscribe_step;
use crate::subscriber::Subscriber;

verus! {

/// A hub owning one delivery channel per event type it publishes — here the
/// two types `EA` and `EB`, with subscribers of types `SA` and `SB`. Every
/// operation is scoped to one event type and leaves the other type's channel
/// exactly as it was: channels share no state. A hub over more event types
/// is composed the same way, one [`Channel`] field and one trio of methods
/// per type.
pub struct Hub<EA, SA: Subscriber<EA>, EB, SB: Subscriber<EB>> {
    channel_a: Channel<EA, SA>,
    channel_b: Channel<EB, SB>,
}

impl<EA, SA: Subscriber<EA>, EB, SB: Subscriber<EB>> Hub<EA, SA, EB, SB> {
    /// The channel carrying events of type `EA`.
    pub closed spec fn a(&self) -> Channel<EA, SA> {
        self.channel_a
    }

    /// The channel carrying events of type `EB`.
    pub closed spec fn b(&self) -> Channel<EB, SB> {
        self.channel_b
    }

    /// Both channels satisfy their invariant.
    pub open spec fn wf(&self) -> bool {
        self.a().wf() && self.b().wf()
    }

    /// A new hub, every channel empty.
    pub fn new() -> (h: Self)
        ensures
            h.wf(),
            h.a().entries().len() == 0,
            h.b().entries().len() == 0,
            h.a().issued() == 0,
            h.b().issued() == 0,
    {
        Hub { channel_a: Channel::new(), channel_b: Channel::new() }
    }

    /// Registers a subscriber on the `EA` channel. The `EB` channel is not
    /// touched.
    pub fn subscribe_a(&mut self, sub: SA) -> (h: Handle<EA>)
        requires
            old(self).wf(),
            old(self).a().issued() < u64::MAX,
        ensures
            final(self).wf(),
            subscribe_step(old(self).a(), final(self).a(), sub, h),
            final(self).b() == old(self).b(),
            !old(self).a().registered(&h),
            final(self).a().registered(&h),
    {
        self.channel_a.subscribe(sub)
    }

    /// Delivers an event on the `EA` channel, in registration order,
    /// stopping at the first failure. Subscribers of the `EB` channel are
    /// never invoked.
    pub fn publish_a(&mut self, event: &EA) -> (r: Result<(), PublishError>)
        requires
            old(self).wf(),
        ensures
            final(self).wf(),
            publish_step(old(self).a(), final(self).a(), event, r),
            final(self).b() == old(self).b(),
    {
        self.channel_a.publish(event)
    }

    /// Deregisters a subscription of the `EA` channel; a handle it does not
    /// know is a silent no-op. The `EB` channel is not touched.
    pub fn unsubscribe_a(&mut self, h: &Handle<EA>)
        requires
            old(self).wf(),
        ensures
            final(self).wf(),
            unsubscribe_step(old(self).a(), final(self).a(), *h),
            !final(self).a().registered(h),
            final(self).b() == old(self).b(),
    {
        self.channel_a.unsubscribe(h)
    }

    /// The subscriber registered under `h` on the `EA` channel, or `None`
    /// for a handle that channel does not currently know.
    pub fn get_a(&self, h: &Handle<EA>) -> (r: Option<&SA>)
        ensures
            match r {
                Some(s) => self.a().registered(h) && *s == self.a().entries()[
                    index_of_id(self.a().entries(), h.identity())
                ].sub,
                None => !self.a().registered(h),
            },
    {
        self.channel_a.get(h)
    }

    /// How many subscriptions the `EA` channel currently holds.
    pub fn count_a(&self) -> (n: usize)
        ensures
            n == self.a().entries().len(),
    {
        self.channel_a.subscriber_count()
    }

    /// Registers a subscriber on the `EB` channel. The `EA` channel is not
    /// touched.
    pub fn subscribe_b(&mut self, sub: SB) -> (h: Handle<EB>)
        requires
            old(self).wf(),
            old(self).b().issued() < u64::MAX,
        ensures
            final(self).wf(),
            subscribe_step(old(self).b(), final(self).b(), sub, h),
            final(self).a() == old(self).a(),
            !old(self).b().registered(&h),
            final(self).b().registered(&h),
    {
        self.channel_b.subscribe(sub)
    }

    /// Delivers an event on the `EB` channel, in registration order,
    /// stopping at the first failure. Subscribers of the `EA` channel are
    /// never invoked.
    pub fn publish_b(&mut self, event: &EB) -> (r: Result<(), PublishError>)
        requires
            old(self).wf(),
        ensures
            final(self).wf(),
            publish_step(old(self).b(), final(self).b(), event, r),
            final(self).a() == old(self).a(),
    {
        self.channel_b.publish(event)
    }

    /// Deregisters a subscription of the `EB` channel; a handle it does not
    /// know is a silent no-op. The `EA` channel is not touched.
    pub fn unsubscribe_b(&mut self, h: &Handle<EB>)
        requires
            old(self).wf(),
        ensures
            final(self).wf(),
            unsubscribe_step(old(self).b(), final(self).b(), *h),
            !final(self).b().registered(h),
            final(self).a() == old(self).a(),
    {
        self.channel_b.unsubscribe(h)
    }

    /// The subscriber registered under `h` on the `EB` channel, or `None`
    /// for a handle that channel does not currently know.
    pub fn get_b(&self, h: &Handle<EB>) -> (r: Option<&SB>)
        ensures
            match r {
                Some(s) => self.b().registered(h) && *s == self.b().entries()[
                    index_of_id(self.b().entries(), h.identity())
                ].sub,
                None => !self.b().registered(h),
            },
    {
        self.channel_b.get(h)
    }

    /// How many subscriptions the `EB` channel currently holds.
    pub fn count_b(&self) -> (n: usize)
        ensures
            n == self.b().entries().len(),
    {
        self.channel_b.subscriber_count()
    }
}

} // verus!
