use core::marker::PhantomData;
use vstd::prelude::*;

use crate::subscriber::Subscriber;

verus! {

/// A subscription handle for a channel of events of type `E`.
///
/// `subscribe` issues a fresh handle for every registration and never reuses
/// one, so a handle names exactly one subscription of the channel that issued
/// it: channels compare handles by that identity alone, never by looking at
/// the subscriber behind them. The caller keeps the handle to unsubscribe
/// later or to reach the registered subscriber through [`Channel::get`].
pub struct Handle<E> {
    id: u64,
    event: PhantomData<E>,
}

impl<E> Handle<E> {
    /// The identity under which the issuing channel knows this subscription.
    pub closed spec fn identity(&self) -> u64 {
        self.id
    }

    /// Whether two handles name the same subscription of the issuing channel.
    ///
    /// This is an identity comparison: two registrations of structurally
    /// equal subscribers still get handles that differ.
    pub fn same_identity(&self, other: &Handle<E>) -> (r: bool)
        ensures
            r == (self.identity() == other.identity()),
    {
        self.id == other.id
    }
}

impl<E> Clone for Handle<E> {
    /// A copy of a handle names the same subscription as the handle it was
    /// copied from.
    fn clone(&self) -> (r: Self)
        ensures
            r.identity() == self.identity(),
    {
        Handle { id: self.id, event: PhantomData }
    }
}

/// One registration held by a channel: the identity the channel issued for
/// it, the subscriber itself, and whether the subscription is poisoned.
///
/// A subscription is poisoned when its subscriber's `receive` failed while
/// the channel was delivering to it: the subscriber may have been left in an
/// inconsistent state, so every later delivery attempt surfaces the
/// poisoning instead of reusing it.
pub struct Entry<S> {
    /// The identity of this subscription, as carried by its [`Handle`].
    pub id: u64,
    /// Whether a failed delivery has poisoned this subscription.
    pub poisoned: bool,
    /// The registered subscriber.
    pub sub: S,
}

/// Why a `publish` call failed. Either way the failing subscription is named
/// by the identity of its handle, and subscribers ordered after it were not
/// delivered to.
#[derive(Clone, Copy, PartialEq, Eq, Structural, Debug)]
pub enum PublishError {
    /// The named subscription's `receive` failed for the published event.
    /// The subscription is now poisoned.
    SubscriberFailed { id: u64 },
    /// The named subscription was already poisoned by an earlier failed
    /// delivery, so the channel refused to reuse its subscriber.
    LockPoisoned { id: u64 },
}

/// The delivery channel for one event type `E`: an insertion-ordered
/// sequence of subscriptions, each a subscriber of type `S` under the
/// identity of the handle that `subscribe` issued for it.
pub struct Channel<E, S: Subscriber<E>> {
    subscriptions: Vec<Entry<S>>,
    next_id: u64,
    event: PhantomData<E>,
}

impl<E, S: Subscriber<E>> Channel<E, S> {
    /// The channel's current registrations, in delivery order.
    pub closed spec fn entries(&self) -> Seq<Entry<S>> {
        self.subscriptions@
    }

    /// How many handles this channel has issued so far. Identities are drawn
    /// from a counter, so every identity a live entry carries is below it.
    pub closed spec fn issued(&self) -> u64 {
        self.next_id
    }

    /// Whether some current registration carries the identity `id`.
    pub open spec fn has_id(&self, id: u64) -> bool {
        exists|k: int| 0 <= k < self.entries().len() && (#[trigger] self.entries()[k]).id == id
    }

    /// Whether the subscription named by `h` is currently registered.
    pub open spec fn registered(&self, h: &Handle<E>) -> bool {
        self.has_id(h.identity())
    }

    /// The channel's invariant: identities are pairwise distinct and all
    /// below the issue counter, so a fresh handle never collides with a
    /// current registration.
    pub open spec fn wf(&self) -> bool {
        &&& forall|i: int, j: int|
            0 <= i < j < self.entries().len() ==> (#[trigger] self.entries()[i]).id != (
            #[trigger] self.entries()[j]).id
        &&& forall|k: int|
            0 <= k < self.entries().len() ==> (#[trigger] self.entries()[k]).id < self.issued()
    }

    /// A new channel with no registrations.
    pub fn new() -> (c: Self)
        ensures
            c.wf(),
            c.entries() == Seq::<Entry<S>>::empty(),
            c.issued() == 0,
    {
        Channel { subscriptions: Vec::new(), next_id: 0, event: PhantomData }
    }

    /// How many subscriptions are currently registered.
    pub fn subscriber_count(&self) -> (n: usize)
        ensures
            n == self.entries().len(),
    {
        self.subscriptions.len()
    }

    /// Registers `sub` and returns the handle under which it can later be
    /// unsubscribed or reached. The new subscription is appended at the end
    /// of the delivery order, unpoisoned, under a fresh identity.
    pub fn subscribe(&mut self, sub: S) -> (h: Handle<E>)
        requires
            old(self).wf(),
            old(self).issued() < u64::MAX,
        ensures
            final(self).wf(),
            subscribe_step(*old(self), *final(self), sub, h),
            !old(self).registered(&h),
            final(self).registered(&h),
            final(self).entries().len() == old(self).entries().len() + 1,
    {
        let id = self.next_id;
        self.next_id = self.next_id + 1;
        self.subscriptions.push(Entry { id, poisoned: false, sub });
        let h = Handle { id, event: PhantomData };
        proof {
            let post = self.entries();
            let n = post.len() - 1;
            assert forall|i: int, j: int| 0 <= i < j < post.len() implies (#[trigger] post[i]).id
                != (#[trigger] post[j]).id by {
                if j == n {
                    assert(old(self).entries()[i].id < old(self).issued());
                }
            }
            assert forall|k: int| 0 <= k < post.len() implies (#[trigger] post[k]).id
                < self.issued() by {
                if k < n {
                    assert(old(self).entries()[k].id < old(self).issued());
                }
            }
            assert forall|k: int|
                0 <= k < old(self).entries().len() implies (#[trigger] old(self).entries()[k]).id
                != id by {}
            assert((post[n]).id == id);
        }
        h
    }
}

impl<E, S: Subscriber<E>> Channel<E, S> {
    /// The index of the first current registration carrying the identity
    /// `id`, as an `Option` the caller can branch on.
    fn position_of(&self, id: u64) -> (r: Option<usize>)
        ensures
            match r {
                Some(i) => self.has_id(id) && i < self.entries().len() && self.entries()[
                    i as int
                ].id == id && i == index_of_id(self.entries(), id),
                None => !self.has_id(id),
            },
    {
        let n = self.subscriptions.len();
        let mut i: usize = 0;
        while i < n
            invariant
                n == self.entries().len(),
                i <= n,
                forall|j: int| 0 <= j < i ==> (#[trigger] self.entries()[j]).id != id,
            decreases n - i,
        {
            if self.subscriptions[i].id == id {
                proof {
                    lemma_index_of_id(self.entries(), id);
                }
                return Some(i);
            }
            i = i + 1;
        }
        None
    }

    /// Whether the subscription named by `h` is currently registered here.
    pub fn contains(&self, h: &Handle<E>) -> (r: bool)
        ensures
            r == self.registered(h),
    {
        self.position_of(h.id).is_some()
    }

    /// The subscriber registered under `h`, or `None` for a handle this
    /// channel does not currently know. The caller can inspect — and, with
    /// the concrete subscriber type in hand, fully recover — the listener it
    /// subscribed earlier.
    pub fn get(&self, h: &Handle<E>) -> (r: Option<&S>)
        ensures
            match r {
                Some(s) => self.registered(h) && *s == self.entries()[index_of_id(
                    self.entries(),
                    h.identity(),
                )].sub,
                None => !self.registered(h),
            },
    {
        match self.position_of(h.id) {
            Some(i) => Some(&self.subscriptions[i].sub),
            None => None,
        }
    }

    /// Whether the subscription named by `h` is poisoned, or `None` for a
    /// handle this channel does not currently know. A poisoned subscription
    /// is never silently reused: it blocks every later `publish` that
    /// reaches it.
    pub fn is_poisoned(&self, h: &Handle<E>) -> (r: Option<bool>)
        ensures
            match r {
                Some(p) => self.registered(h) && p == self.entries()[index_of_id(
                    self.entries(),
                    h.identity(),
                )].poisoned,
                None => !self.registered(h),
            },
    {
        match self.position_of(h.id) {
            Some(i) => Some(self.subscriptions[i].poisoned),
            None => None,
        }
    }

    /// Deregisters the subscription named by `h`, if it is currently
    /// registered; a handle the channel does not know (already unsubscribed,
    /// or issued elsewhere) is a silent no-op. Removal swaps the last entry
    /// into the vacated slot, so it may reorder the surviving registrations;
    /// it never touches their subscribers or identities.
    pub fn unsubscribe(&mut self, h: &Handle<E>)
        requires
            old(self).wf(),
        ensures
            final(self).wf(),
            unsubscribe_step(*old(self), *final(self), *h),
            !final(self).registered(h),
    {
        match self.position_of(h.id) {
            None => {},
            Some(i) => {
                self.subscriptions.swap_remove(i);
                proof {
                    let pre = old(self).entries();
                    let post = self.entries();
                    let k = index_of_id(pre, h.id);
                    lemma_index_of_id(pre, h.id);
                    assert forall|a: int, b: int| 0 <= a < b < post.len() implies (
                    #[trigger] post[a]).id != (#[trigger] post[b]).id by {
                        assert(pre[a].id == post[a].id || post[a] == pre[pre.len() - 1]);
                        assert(pre[b].id == post[b].id || post[b] == pre[pre.len() - 1]);
                    }
                    assert forall|a: int| 0 <= a < post.len() implies (#[trigger] post[a]).id
                        < self.issued() by {
                        assert(pre[a].id == post[a].id || post[a] == pre[pre.len() - 1]);
                    }
                    assert forall|a: int| 0 <= a < post.len() implies (#[trigger] post[a]).id
                        != h.id by {
                        if post[a] == pre[pre.len() - 1] && a != k {
                            assert(pre[a].id == pre[pre.len() - 1].id ==> a == pre.len() - 1);
                        }
                    }
                }
            },
        }
    }
}

impl<E, S: Subscriber<E>> Channel<E, S> {
    /// Delivers `event` to every currently registered subscriber, in the
    /// channel's current order, stopping at the first failure.
    ///
    /// Delivery to one subscription means: refuse a poisoned entry with
    /// `LockPoisoned`; otherwise call the subscriber's `receive`, and on
    /// failure poison the entry and answer `SubscriberFailed`. Either error
    /// names the subscription it stopped at; entries after it are left
    /// untouched and were not delivered to. `publish` answers `Ok` exactly
    /// when every registered subscriber accepted the event; with no
    /// registrations it trivially succeeds. Membership, identities and order
    /// never change.
    pub fn publish(&mut self, event: &E) -> (r: Result<(), PublishError>)
        requires
            old(self).wf(),
        ensures
            final(self).wf(),
            publish_step(*old(self), *final(self), event, r),
    {
        let n = self.subscriptions.len();
        let mut i: usize = 0;
        while i < n
            invariant
                old(self).wf(),
                n == old(self).entries().len(),
                i <= n,
                self.entries().len() == old(self).entries().len(),
                self.issued() == old(self).issued(),
                forall|j: int|
                    0 <= j < i ==> entry_ok(#[trigger] old(self).entries()[j], event)
                        && self.entries()[j] == delivered(old(self).entries()[j], event),
                forall|j: int|
                    i <= j < old(self).entries().len() ==> #[trigger] self.entries()[j] == old(
                        self,
                    ).entries()[j],
            decreases n - i,
        {
            let id = self.subscriptions[i].id;
            if self.subscriptions[i].poisoned {
                proof {
                    lemma_first_blocked_is(old(self).entries(), event, i as int);
                    lemma_ids_distinct_pointwise(
                        old(self).entries(),
                        self.entries(),
                        old(self).issued(),
                    );
                }
                return Err(PublishError::LockPoisoned { id });
            }
            let entry = &mut self.subscriptions[i];
            match entry.sub.receive(event) {
                Ok(_) => {},
                Err(_) => {
                    entry.poisoned = true;
                    proof {
                        lemma_first_blocked_is(old(self).entries(), event, i as int);
                        lemma_ids_distinct_pointwise(
                            old(self).entries(),
                            self.entries(),
                            old(self).issued(),
                        );
                    }
                    return Err(PublishError::SubscriberFailed { id });
                },
            }
            i = i + 1;
        }
        proof {
            lemma_ids_distinct_pointwise(old(self).entries(), self.entries(), old(self).issued());
        }
        Ok(())
    }
}

/// Whether delivering `event` to the registration `e` goes through: the
/// entry is not poisoned and its subscriber accepts the event.
pub open spec fn entry_ok<E, S: Subscriber<E>>(e: Entry<S>, event: &E) -> bool {
    !e.poisoned && e.sub.accepts(event)
}

/// The registration `e` after a successful delivery of `event`: same
/// identity, still unpoisoned, subscriber advanced by one `receive`.
pub open spec fn delivered<E, S: Subscriber<E>>(e: Entry<S>, event: &E) -> Entry<S> {
    Entry { id: e.id, poisoned: false, sub: e.sub.after(event) }
}

/// Whether delivery of `event` goes through on every entry of `s`.
pub open spec fn all_ok<E, S: Subscriber<E>>(s: Seq<Entry<S>>, event: &E) -> bool {
    forall|j: int| 0 <= j < s.len() ==> entry_ok(#[trigger] s[j], event)
}

/// The index of the first entry of `s` on which delivery of `event` stops
/// (a poisoned entry, or a subscriber that does not accept the event), or
/// `s.len()` when delivery goes through everywhere.
pub open spec fn first_blocked<E, S: Subscriber<E>>(s: Seq<Entry<S>>, event: &E) -> int
    decreases s.len(),
{
    if s.len() == 0 {
        0
    } else if !entry_ok(s[0], event) {
        0
    } else {
        1 + first_blocked(s.drop_first(), event)
    }
}

/// Identity bookkeeping survives any pointwise rewrite that keeps each
/// entry's identity: distinctness and the bound carry over from `pre` to
/// `post`.
proof fn lemma_ids_distinct_pointwise<S>(pre: Seq<Entry<S>>, post: Seq<Entry<S>>, bound: u64)
    requires
        post.len() == pre.len(),
        forall|i: int, j: int|
            0 <= i < j < pre.len() ==> (#[trigger] pre[i]).id != (#[trigger] pre[j]).id,
        forall|k: int| 0 <= k < pre.len() ==> (#[trigger] pre[k]).id < bound,
        forall|k: int| 0 <= k < pre.len() ==> (#[trigger] post[k]).id == pre[k].id,
    ensures
        forall|i: int, j: int|
            0 <= i < j < post.len() ==> (#[trigger] post[i]).id != (#[trigger] post[j]).id,
        forall|k: int| 0 <= k < post.len() ==> (#[trigger] post[k]).id < bound,
{
}

/// `first_blocked(s, event)` is the first index of `s` that blocks delivery
/// of `event`: delivery goes through on everything before it, it blocks
/// delivery itself when it is in range, and it is `s.len()` exactly when
/// delivery goes through on the whole of `s`.
pub proof fn lemma_first_blocked<E, S: Subscriber<E>>(s: Seq<Entry<S>>, event: &E)
    ensures
        0 <= first_blocked(s, event) <= s.len(),
        first_blocked(s, event) < s.len() ==> !entry_ok(s[first_blocked(s, event)], event),
        forall|j: int| 0 <= j < first_blocked(s, event) ==> entry_ok(#[trigger] s[j], event),
    decreases s.len(),
{
    if s.len() > 0 && entry_ok(s[0], event) {
        lemma_first_blocked(s.drop_first(), event);
        assert forall|j: int| 0 <= j < first_blocked(s, event) implies entry_ok(
            #[trigger] s[j],
            event,
        ) by {
            if j > 0 {
                assert(entry_ok(s.drop_first()[j - 1], event));
            }
        }
    }
}

/// When delivery goes through strictly before `i` and stops at `i`, then
/// `i` is `first_blocked`.
pub proof fn lemma_first_blocked_is<E, S: Subscriber<E>>(s: Seq<Entry<S>>, event: &E, i: int)
    requires
        0 <= i < s.len(),
        !entry_ok(s[i], event),
        forall|j: int| 0 <= j < i ==> entry_ok(#[trigger] s[j], event),
    ensures
        first_blocked(s, event) == i,
    decreases s.len(),
{
    if i > 0 {
        assert(entry_ok(s[0], event));
        assert forall|j: int| 0 <= j < i - 1 implies entry_ok(
            #[trigger] s.drop_first()[j],
            event,
        ) by {
            assert(s.drop_first()[j] == s[j + 1]);
        }
        assert(s.drop_first()[i - 1] == s[i]);
        lemma_first_blocked_is(s.drop_first(), event, i - 1);
    }
}

/// How one `publish` call changes a channel. Membership never changes: same
/// length, same identities in the same order, and the issue counter stays.
/// The call answers `Ok` exactly when every entry admits delivery, and then
/// every subscriber has handled the event exactly once, in channel order.
/// Otherwise it stops at the first entry that blocks delivery and names it
/// in the error: everything before it was delivered to, everything after it
/// was left exactly as it was, and the blocking entry is poisoned — freshly
/// so when its subscriber failed on this event, or from an earlier failure,
/// in which case its state is untouched and the error says so.
pub open spec fn publish_step<E, S: Subscriber<E>>(
    pre: Channel<E, S>,
    post: Channel<E, S>,
    event: &E,
    r: Result<(), PublishError>,
) -> bool {
    &&& post.issued() == pre.issued()
    &&& post.entries().len() == pre.entries().len()
    &&& forall|j: int|
        0 <= j < pre.entries().len() ==> (#[trigger] post.entries()[j]).id
            == pre.entries()[j].id
    &&& (r is Ok) == all_ok(pre.entries(), event)
    &&& r is Ok ==> forall|j: int|
        0 <= j < pre.entries().len() ==> #[trigger] post.entries()[j] == delivered(
            pre.entries()[j],
            event,
        )
    &&& r is Err ==> {
        let i = first_blocked(pre.entries(), event);
        &&& 0 <= i < pre.entries().len()
        &&& forall|j: int|
            0 <= j < i ==> #[trigger] post.entries()[j] == delivered(pre.entries()[j], event)
        &&& forall|j: int|
            i < j < pre.entries().len() ==> #[trigger] post.entries()[j] == pre.entries()[j]
        &&& post.entries()[i].poisoned
        &&& pre.entries()[i].poisoned ==> r == Err::<(), PublishError>(
            (PublishError::LockPoisoned { id: pre.entries()[i].id }),
        ) && post.entries()[i] == pre.entries()[i]
        &&& !pre.entries()[i].poisoned ==> r == Err::<(), PublishError>(
            (PublishError::SubscriberFailed { id: pre.entries()[i].id }),
        )
    }
}

/// The index of the first entry of `s` whose identity is `id`, or `s.len()`
/// when no entry carries it. [`lemma_index_of_id`] relates this definition
/// to the indexing it names.
pub open spec fn index_of_id<S>(s: Seq<Entry<S>>, id: u64) -> int
    decreases s.len(),
{
    if s.len() == 0 {
        0
    } else if s[0].id == id {
        0
    } else {
        1 + index_of_id(s.drop_first(), id)
    }
}

/// `index_of_id(s, id)` is the first index of `s` carrying `id`: everything
/// before it carries another identity, and it is `s.len()` exactly when the
/// whole of `s` does.
pub proof fn lemma_index_of_id<S>(s: Seq<Entry<S>>, id: u64)
    ensures
        0 <= index_of_id(s, id) <= s.len(),
        index_of_id(s, id) < s.len() ==> s[index_of_id(s, id)].id == id,
        forall|j: int| 0 <= j < index_of_id(s, id) ==> (#[trigger] s[j]).id != id,
    decreases s.len(),
{
    if s.len() > 0 && s[0].id != id {
        lemma_index_of_id(s.drop_first(), id);
        assert forall|j: int| 0 <= j < index_of_id(s, id) implies (#[trigger] s[j]).id != id by {
            if j > 0 {
                assert(s.drop_first()[j - 1].id != id);
            }
        }
    }
}

/// How one `unsubscribe` call changes a channel. A handle naming no current
/// registration changes nothing; otherwise exactly the named entry leaves,
/// by a swap with the last entry, and the count drops by exactly one. The
/// issue counter never moves, so the identity is not handed out again.
pub open spec fn unsubscribe_step<E, S: Subscriber<E>>(
    pre: Channel<E, S>,
    post: Channel<E, S>,
    h: Handle<E>,
) -> bool {
    &&& post.issued() == pre.issued()
    &&& !pre.registered(&h) ==> post.entries() == pre.entries()
    &&& pre.registered(&h) ==> {
        &&& post.entries() == pre.entries().update(
            index_of_id(pre.entries(), h.identity()),
            pre.entries().last(),
        ).drop_last()
        &&& post.entries().len() == pre.entries().len() - 1
    }
}

/// How one `subscribe` call changes a channel: the issue counter advances by
/// one, the fresh handle carries the identity it skipped over, and the new
/// subscriber is appended, unpoisoned, after the existing registrations,
/// which stay exactly as they were.
pub open spec fn subscribe_step<E, S: Subscriber<E>>(
    pre: Channel<E, S>,
    post: Channel<E, S>,
    sub: S,
    h: Handle<E>,
) -> bool {
    &&& h.identity() == pre.issued()
    &&& post.issued() == pre.issued() + 1
    &&& post.entries() == pre.entries().push((Entry { id: h.identity(), poisoned: false, sub }))
}

} // verus!
