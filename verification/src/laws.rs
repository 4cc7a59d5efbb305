use vstd::prelude::*;

use crate::channel::Channel;
use crate::channel::Handle;
use crate::channel::PublishError;
use crate::channel::all_ok;
use crate::channel::delivered;
use crate::channel::entry_ok;
use crate::channel::first_blocked;
use crate::channel::index_of_id;
use crate::channel::lemma_first_blocked;
use crate::channel::lemma_index_of_id;
use crate::channel::publish_step;
use crate::channel::subscribe_step;
use crate::channel::unsubscribe_step;
use crate::subscriber::Subscriber;

verus! {

/// A run of `subscribe` calls against one channel: `states[0]` is the
/// starting channel, and each `states[k + 1]` is `states[k]` after
/// subscribing `subs[k]` and being handed the handle `hs[k]`.
pub open spec fn subscribe_chain<E, S: Subscriber<E>>(
    states: Seq<Channel<E, S>>,
    subs: Seq<S>,
    hs: Seq<Handle<E>>,
) -> bool {
    &&& states.len() == subs.len() + 1
    &&& hs.len() == subs.len()
    &&& forall|k: int|
        0 <= k < subs.len() ==> subscribe_step(
            #[trigger] states[k],
            states[k + 1],
            subs[k],
            hs[k],
        )
}

/// After any run of `n` subscribe calls on a channel with no registrations,
/// the channel holds exactly `n` entries: the `k`-th entry is the `k`-th
/// subscriber, unpoisoned, under the `k`-th handle's identity — and those
/// identities are pairwise distinct, each one step past the one before.
pub proof fn lemma_subscribe_chain_entries<E, S: Subscriber<E>>(
    states: Seq<Channel<E, S>>,
    subs: Seq<S>,
    hs: Seq<Handle<E>>,
)
    requires
        subscribe_chain(states, subs, hs),
        states[0].entries().len() == 0,
    ensures
        states.last().issued() == states[0].issued() + subs.len(),
        states.last().entries().len() == subs.len(),
        forall|k: int|
            0 <= k < subs.len() ==> (#[trigger] states.last().entries()[k]).id == hs[k].identity()
                && states.last().entries()[k].sub == subs[k]
                && !states.last().entries()[k].poisoned,
        forall|k: int|
            0 <= k < subs.len() ==> (#[trigger] hs[k].identity()) == states[0].issued() + k,
        forall|i: int, j: int|
            0 <= i < j < subs.len() ==> (#[trigger] hs[i].identity()) != (
            #[trigger] hs[j].identity()),
    decreases subs.len(),
{
    if subs.len() == 0 {
        assert(states.last() == states[0]);
    } else {
        let m = subs.len() - 1;
        let pstates = states.drop_last();
        let psubs = subs.drop_last();
        let phs = hs.drop_last();
        assert forall|k: int| 0 <= k < psubs.len() implies subscribe_step(
            #[trigger] pstates[k],
            pstates[k + 1],
            psubs[k],
            phs[k],
        ) by {
            assert(subscribe_step(states[k], states[k + 1], subs[k], hs[k]));
        }
        lemma_subscribe_chain_entries(pstates, psubs, phs);
        assert(subscribe_step(states[m], states[m + 1], subs[m], hs[m]));
        assert(pstates.last() == states[m]);
        assert(states.last() == states[m + 1]);
        assert forall|k: int| 0 <= k < subs.len() implies (
        #[trigger] states.last().entries()[k]).id == hs[k].identity()
            && states.last().entries()[k].sub == subs[k]
            && !states.last().entries()[k].poisoned by {
            if k < m {
                assert(states.last().entries()[k] == states[m].entries()[k]);
                assert(pstates[k] == states[k]);
                assert(phs[k] == hs[k]);
                assert(psubs[k] == subs[k]);
            }
        }
        assert forall|k: int| 0 <= k < subs.len() implies (#[trigger] hs[k].identity())
            == states[0].issued() + k by {
            if k < m {
                assert(phs[k] == hs[k]);
                assert(pstates[0] == states[0]);
            } else {
                assert(hs[m].identity() == states[m].issued());
            }
        }
    }
}

/// Every registered subscriber is delivered to exactly once per successful
/// publish, with the published event itself: after `n` subscribe calls on
/// an empty channel and one `publish` that answered `Ok`, the `k`-th entry
/// holds the `k`-th subscriber advanced by exactly one `receive` of that
/// event, still under the `k`-th handle's identity.
pub proof fn lemma_chain_then_publish_delivers_once<E, S: Subscriber<E>>(
    states: Seq<Channel<E, S>>,
    subs: Seq<S>,
    hs: Seq<Handle<E>>,
    post: Channel<E, S>,
    event: &E,
    r: Result<(), PublishError>,
)
    requires
        subscribe_chain(states, subs, hs),
        states[0].entries().len() == 0,
        publish_step(states.last(), post, event, r),
        r is Ok,
    ensures
        post.entries().len() == subs.len(),
        forall|k: int|
            0 <= k < subs.len() ==> (#[trigger] post.entries()[k]).sub == subs[k].after(event)
                && post.entries()[k].id == hs[k].identity(),
{
    lemma_subscribe_chain_entries(states, subs, hs);
    assert forall|k: int| 0 <= k < subs.len() implies (#[trigger] post.entries()[k]).sub
        == subs[k].after(event) && post.entries()[k].id == hs[k].identity() by {
        assert(post.entries()[k] == delivered(states.last().entries()[k], event));
    }
}

/// Delivery is fail-fast: when some registered subscriber does not accept
/// the published event (or sits poisoned in the channel), `publish` itself
/// fails, every subscriber strictly before the first such entry was
/// delivered to, the first such entry blocks the call, and every entry
/// after it is left exactly as it was — not delivered to.
pub proof fn lemma_publish_fail_fast<E, S: Subscriber<E>>(
    pre: Channel<E, S>,
    post: Channel<E, S>,
    event: &E,
    r: Result<(), PublishError>,
)
    requires
        publish_step(pre, post, event, r),
        !all_ok(pre.entries(), event),
    ensures
        r is Err,
        ({
            let i = first_blocked(pre.entries(), event);
            &&& 0 <= i < pre.entries().len()
            &&& !entry_ok(pre.entries()[i], event)
            &&& forall|j: int|
                0 <= j < i ==> entry_ok(#[trigger] pre.entries()[j], event)
                    && post.entries()[j] == delivered(pre.entries()[j], event)
            &&& forall|j: int|
                i < j < pre.entries().len() ==> #[trigger] post.entries()[j] == pre.entries()[j]
        }),
{
    lemma_first_blocked(pre.entries(), event);
}

/// Unsubscribing removes exactly the named entry and spares every other
/// subscription: each surviving entry is one of the old entries, carried
/// over whole — identity, subscriber state and poisoning — either from the
/// same position or swapped in from the end, and a subscription other than
/// the removed one is registered after the call exactly when it was
/// registered before it.
pub proof fn lemma_unsubscribe_spares_others<E, S: Subscriber<E>>(
    pre: Channel<E, S>,
    post: Channel<E, S>,
    h: Handle<E>,
)
    requires
        pre.wf(),
        unsubscribe_step(pre, post, h),
    ensures
        forall|a: int|
            0 <= a < post.entries().len() ==> ((#[trigger] post.entries()[a]) == pre.entries()[a]
                || post.entries()[a] == pre.entries()[pre.entries().len() - 1])
                && post.entries()[a].id != h.identity(),
        forall|id: u64|
            id != h.identity() ==> (#[trigger] post.has_id(id)) == pre.has_id(id),
{
    if !pre.registered(&h) {
        assert forall|a: int| 0 <= a < post.entries().len() implies ((
        #[trigger] post.entries()[a]) == pre.entries()[a] || post.entries()[a] == pre.entries()[
            pre.entries().len() - 1
        ]) && post.entries()[a].id != h.identity() by {
            assert(post.entries()[a] == pre.entries()[a]);
            assert(pre.entries()[a].id != h.identity());
        }
        assert forall|id: u64| id != h.identity() implies (#[trigger] post.has_id(id))
            == pre.has_id(id) by {
            if pre.has_id(id) {
                let b = choose|b: int|
                    0 <= b < pre.entries().len() && (#[trigger] pre.entries()[b]).id == id;
                assert(post.entries()[b].id == id);
            }
            if post.has_id(id) {
                let a = choose|a: int|
                    0 <= a < post.entries().len() && (#[trigger] post.entries()[a]).id == id;
                assert(pre.entries()[a].id == id);
            }
        }
    } else {
        let k = index_of_id(pre.entries(), h.identity());
        lemma_index_of_id(pre.entries(), h.identity());
        let last = pre.entries().len() - 1;
        assert forall|a: int| 0 <= a < post.entries().len() implies ((
        #[trigger] post.entries()[a]) == pre.entries()[a] || post.entries()[a] == pre.entries()[
            pre.entries().len() - 1
        ]) && post.entries()[a].id != h.identity() by {
            if a == k {
                assert(post.entries()[a] == pre.entries()[last] && pre.entries()[last].id
                    != h.identity());
            } else {
                assert(post.entries()[a] == pre.entries()[a] && pre.entries()[a].id
                    != h.identity());
            }
        }
        assert forall|id: u64| id != h.identity() implies (#[trigger] post.has_id(id))
            == pre.has_id(id) by {
            if pre.has_id(id) {
                let b = choose|b: int|
                    0 <= b < pre.entries().len() && (#[trigger] pre.entries()[b]).id == id;
                if b == last {
                    if k < last {
                        assert(post.entries()[k].id == id);
                    }
                } else if b != k {
                    assert(post.entries()[b].id == id);
                }
            }
            if post.has_id(id) {
                let a = choose|a: int|
                    0 <= a < post.entries().len() && (#[trigger] post.entries()[a]).id == id;
                if a == k {
                    assert(pre.entries()[last].id == id);
                } else {
                    assert(pre.entries()[a].id == id);
                }
            }
        }
    }
}

/// A publish after an unsubscribe never delivers to the removed
/// subscription: once a handle's identity has left the channel, no entry
/// carries it — before the publish, or after it.
pub proof fn lemma_unsubscribed_not_delivered<E, S: Subscriber<E>>(
    pre: Channel<E, S>,
    mid: Channel<E, S>,
    post: Channel<E, S>,
    h: Handle<E>,
    event: &E,
    r: Result<(), PublishError>,
)
    requires
        unsubscribe_step(pre, mid, h),
        !mid.registered(&h),
        publish_step(mid, post, event, r),
    ensures
        forall|k: int| 0 <= k < post.entries().len() ==> (#[trigger] post.entries()[k]).id != h.identity(),
{
    assert forall|k: int| 0 <= k < post.entries().len() implies (#[trigger] post.entries()[k]).id
        != h.identity() by {
        assert(post.entries()[k].id == mid.entries()[k].id);
        assert(mid.entries()[k].id != h.identity());
    }
}

} // verus!
