//! Single-producer, many-consumer broadcast bus.
//!
//! A `Sender` publishes values in order; each `Receiver` observes exactly the
//! suffix of the published sequence that starts at its subscription, with no
//! replay of earlier publishes.  Messages are held behind shared-ownership
//! handles (`MsgRef`), so receivers observe them without copying payloads,
//! and storage for a message is reclaimed during the next publish once every
//! live receiver has advanced past it.  A receiver whose connection ends is
//! retired with `unsubscribe`, so only live receivers hold storage back.
//! Receivers that run dry can park themselves; a publish hands the caller
//! exactly one wakeup per parked receiver to deliver.

use std::sync::Arc;
use vstd::prelude::*;

verus! {

use vstd::pervasive::VecAdditionalExecFns;

/// Storage cell for one published message, shared by every receiver that has
/// not yet advanced past it.
pub struct Node<T> {
    msg: T,
}

impl<T> Node<T> {
    /// The stored message.
    pub closed spec fn spec_msg(self) -> T {
        self.msg
    }

    /// Borrows the stored message.
    pub fn message(&self) -> (r: &T)
        ensures
            *r == self.spec_msg(),
    {
        &self.msg
    }
}

/// Shared-ownership handle to a published message.
pub struct MsgRef<T> {
    inner: Arc<Node<T>>,
}

impl<T> MsgRef<T> {
    /// The message the handle refers to.
    pub closed spec fn spec_msg(self) -> T {
        self.inner.msg
    }

    /// Borrows the message.
    pub fn message(&self) -> (r: &T)
        ensures
            *r == self.spec_msg(),
    {
        &self.inner.msg
    }
}

/// Error for a publish on a broken channel; the model channel cannot break,
/// so no operation here ever returns it.
#[derive(Debug, PartialEq, Eq, Structural)]
pub struct SendError;

/// Error for a receive from a broken channel; never produced by the model.
#[derive(Debug, PartialEq, Eq, Structural)]
pub struct RecvError;

/// Relies on `std::sync::Arc::clone`: the returned handle refers to the
/// same allocation as the argument, so its target is the same value.
#[verifier::external_body]
fn arc_dup<T>(v: &Arc<T>) -> (r: Arc<T>)
    ensures
        r == *v,
{
    Arc::clone(v)
}

/// The publishing half of the bus.  It owns the retained message nodes, one
/// cursor per subscribed receiver, and the list of parked receivers.
pub struct Sender<T> {
    /// Retained nodes: the messages at history indices `base ..`.
    msgs: Vec<Arc<Node<T>>>,
    /// How many leading messages of the history have been reclaimed.
    base: usize,
    /// One history index per subscribed receiver, indexed by receiver slot.
    cursors: Vec<usize>,
    /// Whether each slot's receiver is still live; retired slots no longer
    /// hold nodes back.
    live: Vec<bool>,
    /// Slots of live receivers parked until the next publish, each at most
    /// once.
    waiting: Vec<usize>,
    /// Full sequence of messages ever published.
    hist: Ghost<Seq<T>>,
    /// Slots woken by the most recent publish.
    woken: Vec<usize>,
}

/// A subscriber's handle: a slot into the sender's cursor table.
pub struct Receiver {
    id: usize,
    /// History length at subscription time.
    birth: Ghost<nat>,
}

impl Receiver {
    /// The cursor-table slot this receiver owns.
    pub closed spec fn slot(self) -> nat {
        self.id as nat
    }

    /// How many messages had been published when this receiver subscribed.
    pub closed spec fn sub_time(self) -> nat {
        self.birth@
    }

    /// The slot this receiver occupies, as the wakeup lists report it.
    pub fn slot_index(&self) -> (n: usize)
        ensures
            n as nat == self.slot(),
    {
        self.id
    }
}

impl<T> Sender<T> {
    /// Every message published so far, in publish order.
    pub closed spec fn history(self) -> Seq<T> {
        self.hist@
    }

    /// Number of leading history entries whose storage has been reclaimed.
    pub closed spec fn reclaimed(self) -> nat {
        self.base as nat
    }

    /// The cursor table: one history index per subscribed receiver.
    pub closed spec fn spec_cursors(self) -> Seq<usize> {
        self.cursors@
    }

    /// Slots currently parked for a wakeup.
    pub closed spec fn waiting_ids(self) -> Seq<usize> {
        self.waiting@
    }

    /// Slots woken by the most recent publish.
    pub closed spec fn last_woken(self) -> Seq<usize> {
        self.woken@
    }

    /// Which slots are live: true until the slot's receiver is retired.
    pub closed spec fn spec_live(self) -> Seq<bool> {
        self.live@
    }

    /// Some subscribed receiver is still live.
    pub open spec fn any_live(self) -> bool {
        exists|i: int| 0 <= i < self.spec_live().len() && self.spec_live()[i]
    }

    /// Messages whose nodes are still held by the sender.
    pub closed spec fn retained(self) -> Seq<T> {
        self.msgs@.map_values(|n: Arc<Node<T>>| n.msg)
    }

    /// How many receivers have subscribed.
    pub open spec fn num_receivers(self) -> nat {
        self.spec_cursors().len()
    }

    /// The history index this receiver will observe next.
    pub open spec fn cursor(self, rx: Receiver) -> nat {
        self.spec_cursors()[rx.slot() as int] as nat
    }

    /// `rx` owns a live slot of this sender and has not run backwards.
    pub open spec fn is_subscriber(self, rx: Receiver) -> bool {
        &&& rx.slot() < self.num_receivers()
        &&& self.spec_live()[rx.slot() as int]
        &&& rx.sub_time() <= self.cursor(rx)
    }

    /// The suffix of the history this receiver has yet to observe.
    pub open spec fn pending(self, rx: Receiver) -> Seq<T> {
        self.history().subrange(self.cursor(rx) as int, self.history().len() as int)
    }

    /// `rx` is parked until the next publish.
    pub open spec fn is_waiting(self, rx: Receiver) -> bool {
        exists|k: int| 0 <= k < self.waiting_ids().len() && self.waiting_ids()[k] as nat == rx.slot()
    }

    /// Structural invariant: the retained nodes are exactly the history
    /// entries from `base` on, every cursor lies between `base` and the
    /// history length, and parked slots are caught-up receivers, each parked
    /// at most once.
    pub closed spec fn wf(self) -> bool {
        &&& self.hist@.len() == self.base + self.msgs@.len()
        &&& self.hist@.len() <= usize::MAX
        &&& self.live@.len() == self.cursors@.len()
        &&& forall|i: int|
            0 <= i < self.msgs@.len() ==> (#[trigger] self.msgs@[i]).msg == self.hist@[self.base
                + i]
        &&& forall|i: int|
            0 <= i < self.cursors@.len() ==> (#[trigger] self.cursors@[i] <= self.hist@.len() && (
            self.live@[i] ==> self.base <= self.cursors@[i]))
        &&& forall|k: int|
            0 <= k < self.waiting@.len() ==> (#[trigger] self.waiting@[k]) < self.cursors@.len()
                && self.cursors@[self.waiting@[k] as int] == self.hist@.len()
                && self.live@[self.waiting@[k] as int]
        &&& forall|k1: int, k2: int|
            0 <= k1 < k2 < self.waiting@.len() ==> self.waiting@[k1] != self.waiting@[k2]
    }

    /// Creates a bus with no history and no subscribers.
    pub fn new() -> (r: Self)
        ensures
            r.wf(),
            r.history() == Seq::<T>::empty(),
            r.num_receivers() == 0,
            r.waiting_ids() == Seq::<usize>::empty(),
            r.reclaimed() == 0,
            r.retained() == Seq::<T>::empty(),
    {
        let r = Sender {
            msgs: Vec::new(),
            base: 0,
            cursors: Vec::new(),
            live: Vec::new(),
            waiting: Vec::new(),
            hist: Ghost(Seq::empty()),
            woken: Vec::new(),
        };
        proof {
            assert(r.retained() =~= Seq::<T>::empty());
        }
        r
    }

    /// Registers a new receiver.  Its cursor starts at the current history
    /// length, so it observes exactly the messages published strictly after
    /// this call and never a publish that preceded it (no replay).
    pub fn subscribe(&mut self) -> (rx: Receiver)
        requires
            old(self).wf(),
            old(self).num_receivers() < usize::MAX,
        ensures
            final(self).wf(),
            final(self).is_subscriber(rx),
            rx.slot() == old(self).num_receivers(),
            rx.sub_time() == old(self).history().len(),
            final(self).cursor(rx) == old(self).history().len(),
            final(self).pending(rx) == Seq::<T>::empty(),
            final(self).history() == old(self).history(),
            final(self).num_receivers() == old(self).num_receivers() + 1,
            final(self).reclaimed() == old(self).reclaimed(),
            final(self).retained() == old(self).retained(),
            final(self).waiting_ids() == old(self).waiting_ids(),
            forall|r2: Receiver|
                old(self).is_subscriber(r2) ==> final(self).is_subscriber(r2) && final(self).cursor(
                    r2,
                ) == old(self).cursor(r2),
    {
        let id = self.cursors.len();
        let at = self.base + self.msgs.len();
        self.cursors.push(at);
        self.live.push(true);
        let rx = Receiver { id, birth: Ghost(at as nat) };
        proof {
            assert(self.pending(rx) =~= Seq::<T>::empty());
        }
        rx
    }

    /// Clones a subscription: registers a new receiver whose cursor starts
    /// at the given receiver's current cursor, so both observe the same
    /// sequence of messages from here on.
    pub fn subscribe_at(&mut self, rx: &Receiver) -> (r2: Receiver)
        requires
            old(self).wf(),
            old(self).is_subscriber(*rx),
            old(self).num_receivers() < usize::MAX,
        ensures
            final(self).wf(),
            final(self).is_subscriber(r2),
            r2.slot() == old(self).num_receivers(),
            final(self).cursor(r2) == old(self).cursor(*rx),
            final(self).pending(r2) == old(self).pending(*rx),
            final(self).is_subscriber(*rx),
            final(self).cursor(*rx) == old(self).cursor(*rx),
            final(self).history() == old(self).history(),
            final(self).num_receivers() == old(self).num_receivers() + 1,
            final(self).reclaimed() == old(self).reclaimed(),
            final(self).retained() == old(self).retained(),
            final(self).waiting_ids() == old(self).waiting_ids(),
            forall|r3: Receiver|
                old(self).is_subscriber(r3) ==> final(self).is_subscriber(r3) && final(self).cursor(
                    r3,
                ) == old(self).cursor(r3),
    {
        let id = self.cursors.len();
        let at = self.cursors[rx.id];
        self.cursors.push(at);
        self.live.push(true);
        let r2 = Receiver { id, birth: Ghost(at as nat) };
        proof {
            assert(self.pending(r2) =~= old(self).pending(*rx));
        }
        r2
    }

    /// Publishes a message: appends it to the history (every subscriber's
    /// pending suffix grows by exactly this message), hands one wakeup to
    /// each parked receiver, and reclaims every node that all subscribed
    /// receivers have advanced past, keeping at least the new node.
    pub fn send(&mut self, msg: T) -> (r: Result<(), SendError>)
        requires
            old(self).wf(),
            old(self).history().len() < usize::MAX,
        ensures
            r == Ok::<(), SendError>(()),
            final(self).wf(),
            final(self).history() == old(self).history().push(msg),
            final(self).num_receivers() == old(self).num_receivers(),
            forall|r2: Receiver|
                old(self).is_subscriber(r2) ==> final(self).is_subscriber(r2) && final(self).cursor(
                    r2,
                ) == old(self).cursor(r2) && final(self).pending(r2) == old(self).pending(
                    r2,
                ).push(msg),
            // each parked receiver gets exactly one wakeup, then the list is empty
            final(self).last_woken() == old(self).waiting_ids(),
            final(self).waiting_ids() == Seq::<usize>::empty(),
            // reclamation: exactly the prefix that every receiver has passed is gone
            final(self).retained() == final(self).history().subrange(
                final(self).reclaimed() as int,
                final(self).history().len() as int,
            ),
            forall|r2: Receiver|
                old(self).is_subscriber(r2) ==> final(self).reclaimed() <= final(self).cursor(r2),
            !old(self).any_live() ==> final(self).reclaimed() + 1 == final(self).history().len(),
            old(self).any_live() ==> exists|i: int|
                0 <= i < final(self).spec_cursors().len() && final(self).spec_live()[i] && final(self).spec_cursors()[i] as nat == final(self).reclaimed(),
    {
        let ghost pre = *self;
        self.msgs.push(Arc::new(Node { msg }));
        proof {
            self.hist@ = self.hist@.push(msg);
        }
        let total = self.base + self.msgs.len();

        // hand the caller every parked receiver's wakeup, exactly once
        let mut woken: Vec<usize> = Vec::new();
        let mut w: usize = 0;
        while w < self.waiting.len()
            invariant
                w <= self.waiting@.len(),
                woken@ == self.waiting@.subrange(0, w as int),
            decreases self.waiting@.len() - w,
        {
            woken.push(self.waiting[w]);
            w += 1;
        }
        proof {
            assert(woken@ =~= self.waiting@);
        }
        self.woken = woken;
        self.waiting = Vec::new();

        // reclaim the prefix that every live receiver has passed, always
        // keeping the node just published
        let mut floor: usize = total - 1;
        let mut i: usize = 0;
        let ghost mut fidx: int = 0;
        while i < self.cursors.len()
            invariant
                i <= self.cursors@.len(),
                self.live@.len() == self.cursors@.len(),
                self.base <= floor <= total - 1,
                total == self.base + self.msgs@.len(),
                forall|j: int|
                    0 <= j < i ==> (self.live@[j] ==> floor <= #[trigger] self.cursors@[j]),
                (0 <= fidx < i && self.live@[fidx] && self.cursors@[fidx] as int == floor as int)
                    || floor as int == total - 1,
                forall|j: int|
                    0 <= j < self.cursors@.len() ==> (self.live@[j] ==> self.base
                        <= #[trigger] self.cursors@[j]),
            decreases self.cursors@.len() - i,
        {
            let c = self.cursors[i];
            if self.live[i] && c < floor {
                floor = c;
                proof {
                    fidx = i as int;
                }
            }
            i += 1;
        }
        let keep_from = floor - self.base;
        let kept = self.msgs.split_off(keep_from);
        self.msgs = kept;
        self.base = floor;
        proof {
            assert(self.retained() =~= self.history().subrange(
                self.reclaimed() as int,
                self.history().len() as int,
            ));
            assert forall|r2: Receiver| pre.is_subscriber(r2) implies self.pending(r2)
                == pre.pending(r2).push(msg) by {
                assert(self.pending(r2) =~= pre.pending(r2).push(msg));
            }
            if !pre.any_live() {
                // no live receiver: the floor never moved off total - 1
                if floor as int != total - 1 {
                    assert(pre.spec_live()[fidx]);
                    assert(false);
                }
            }
            if pre.any_live() {
                let lw = choose|lw: int| 0 <= lw < self.live@.len() && self.live@[lw];
                if floor as int == total - 1 {
                    // a live cursor is at least floor and at most the
                    // history length before this publish, which is total - 1
                    assert(self.cursors@[lw] <= pre.hist@.len());
                    assert(self.spec_live()[lw] && self.spec_cursors()[lw] as nat
                        == self.reclaimed());
                } else {
                    assert(self.spec_live()[fidx] && self.spec_cursors()[fidx] as nat
                        == self.reclaimed());
                }
            }
        }
        Ok(())
    }

    /// Retires a receiver: its slot stops counting as live, so the next
    /// publish reclaims everything only it had yet to observe, and any
    /// pending wakeup of its own is dropped.  The transport calls this when
    /// a listener's connection ends.
    pub fn unsubscribe(&mut self, rx: Receiver)
        requires
            old(self).wf(),
            old(self).is_subscriber(rx),
        ensures
            final(self).wf(),
            forall|r2: Receiver| r2.slot() == rx.slot() ==> !final(self).is_subscriber(r2),
            forall|r2: Receiver|
                old(self).is_subscriber(r2) && r2.slot() != rx.slot() ==> final(self).is_subscriber(
                    r2,
                ) && final(self).cursor(r2) == old(self).cursor(r2),
            final(self).history() == old(self).history(),
            final(self).num_receivers() == old(self).num_receivers(),
            final(self).reclaimed() == old(self).reclaimed(),
            final(self).retained() == old(self).retained(),
            final(self).last_woken() == old(self).last_woken(),
            !final(self).is_waiting(rx),
            forall|r2: Receiver|
                r2.slot() != rx.slot() ==> final(self).is_waiting(r2) == old(self).is_waiting(r2),
    {
        let id = rx.id;
        self.live.set(id, false);
        let n = self.waiting.len();
        let mut pos: usize = n;
        let mut k: usize = 0;
        while k < n
            invariant
                k <= n,
                n == self.waiting@.len(),
                pos == n || (pos < k && self.waiting@[pos as int] == id),
                pos == n ==> forall|j: int| 0 <= j < k ==> self.waiting@[j] != id,
            decreases n - k,
        {
            if pos == n && self.waiting[k] == id {
                pos = k;
            }
            k += 1;
        }
        if pos < n {
            self.waiting.remove(pos);
            proof {
                assert(self.waiting@ =~= old(self).waiting@.subrange(0, pos as int) + old(self).waiting@.subrange(pos as int + 1, old(self).waiting@.len() as int));
                assert forall|k2: int|
                    0 <= k2 < self.waiting@.len() implies #[trigger] self.waiting@[k2] != id by {
                    if k2 < pos {
                        assert(self.waiting@[k2] == old(self).waiting@[k2]);
                    } else {
                        assert(self.waiting@[k2] == old(self).waiting@[k2 + 1]);
                    }
                }
            }
        }
        proof {
            if self.is_waiting(rx) {
                let j = choose|j: int|
                    0 <= j < self.waiting_ids().len() && self.waiting_ids()[j] as nat == rx.slot();
                assert(self.waiting@[j] == id);
                assert(false);
            }
            assert forall|r2: Receiver| r2.slot() != rx.slot() implies self.is_waiting(r2)
                == old(self).is_waiting(r2) by {
                if old(self).is_waiting(r2) {
                    let j = choose|j: int|
                        0 <= j < old(self).waiting_ids().len() && old(self).waiting_ids()[j] as nat
                            == r2.slot();
                    if pos < n {
                        assert(old(self).waiting@[j] != id);
                        assert(j != pos);
                        if j < pos {
                            assert(self.waiting_ids()[j] as nat == r2.slot());
                        } else {
                            assert(self.waiting_ids()[j - 1] as nat == r2.slot());
                        }
                    } else {
                        assert(self.waiting_ids()[j] as nat == r2.slot());
                    }
                }
                if self.is_waiting(r2) {
                    let j = choose|j: int|
                        0 <= j < self.waiting_ids().len() && self.waiting_ids()[j] as nat
                            == r2.slot();
                    if pos < n {
                        if j < pos {
                            assert(old(self).waiting_ids()[j] as nat == r2.slot());
                        } else {
                            assert(old(self).waiting_ids()[j + 1] as nat == r2.slot());
                        }
                    } else {
                        assert(old(self).waiting_ids()[j] as nat == r2.slot());
                    }
                }
            }
            assert(self.retained() =~= old(self).retained());
        }
    }

    /// The slots woken by the most recent publish, for the caller to
    /// deliver the wakeups.
    pub fn woken_slots(&self) -> (r: &Vec<usize>)
        ensures
            r@ == self.last_woken(),
    {
        &self.woken
    }

    /// Number of messages published over this bus's lifetime.
    pub fn published_count(&self) -> (n: usize)
        requires
            self.wf(),
        ensures
            n == self.history().len(),
    {
        self.base + self.msgs.len()
    }

    /// Number of message nodes the sender still holds.
    pub fn retained_count(&self) -> (n: usize)
        ensures
            n == self.retained().len(),
    {
        self.msgs.len()
    }

    /// Number of receivers currently parked for a wakeup.
    pub fn pending_waker_count(&self) -> (n: usize)
        ensures
            n == self.waiting_ids().len(),
    {
        self.waiting.len()
    }
}

impl Receiver {
    /// Non-blocking receive: returns the first pending message and advances
    /// this receiver's cursor past it, or `None` when the receiver has seen
    /// the whole history.
    pub fn try_recv<T>(&self, sx: &mut Sender<T>) -> (r: Result<Option<MsgRef<T>>, RecvError>)
        requires
            old(sx).wf(),
            old(sx).is_subscriber(*self),
        ensures
            final(sx).wf(),
            final(sx).is_subscriber(*self),
            final(sx).history() == old(sx).history(),
            final(sx).num_receivers() == old(sx).num_receivers(),
            final(sx).reclaimed() == old(sx).reclaimed(),
            final(sx).retained() == old(sx).retained(),
            final(sx).waiting_ids() == old(sx).waiting_ids(),
            forall|r2: Receiver|
                old(sx).is_subscriber(r2) && r2.slot() != self.slot() ==> final(sx).is_subscriber(
                    r2,
                ) && final(sx).cursor(r2) == old(sx).cursor(r2),
            old(sx).pending(*self).len() == 0 ==> r == Ok::<Option<MsgRef<T>>, RecvError>(None)
                && final(sx).cursor(*self) == old(sx).cursor(*self),
            old(sx).pending(*self).len() > 0 ==> (match r {
                Ok(Some(m)) => m.spec_msg() == old(sx).pending(*self)[0] && final(sx).cursor(*self)
                    == old(sx).cursor(*self) + 1 && final(sx).pending(*self) == old(sx).pending(
                    *self,
                ).subrange(1, old(sx).pending(*self).len() as int),
                _ => false,
            }),
    {
        let ghost pre = *sx;
        let id = self.id;
        let cur = sx.cursors[id];
        let total = sx.base + sx.msgs.len();
        if cur < total {
            let idx = cur - sx.base;
            let node = arc_dup(&sx.msgs[idx]);
            sx.cursors.set(id, cur + 1);
            proof {
                assert(pre.pending(*self)[0] == pre.hist@[cur as int]);
                assert(sx.pending(*self) =~= pre.pending(*self).subrange(
                    1,
                    pre.pending(*self).len() as int,
                ));
            }
            Ok(Some(MsgRef { inner: node }))
        } else {
            proof {
                assert(pre.pending(*self) =~= Seq::<T>::empty());
            }
            Ok(None)
        }
    }

    /// One poll of a blocking receive: like `try_recv`, but when nothing is
    /// pending the receiver parks itself for a wakeup at the next publish —
    /// at most once, however often it polls (waker coalescing).
    pub fn recv_poll<T>(&self, sx: &mut Sender<T>) -> (r: Result<Option<MsgRef<T>>, RecvError>)
        requires
            old(sx).wf(),
            old(sx).is_subscriber(*self),
        ensures
            final(sx).wf(),
            final(sx).is_subscriber(*self),
            final(sx).history() == old(sx).history(),
            final(sx).num_receivers() == old(sx).num_receivers(),
            final(sx).reclaimed() == old(sx).reclaimed(),
            final(sx).retained() == old(sx).retained(),
            forall|r2: Receiver|
                old(sx).is_subscriber(r2) && r2.slot() != self.slot() ==> final(sx).is_subscriber(
                    r2,
                ) && final(sx).cursor(r2) == old(sx).cursor(r2),
            forall|r2: Receiver|
                r2.slot() != self.slot() ==> final(sx).is_waiting(r2) == old(sx).is_waiting(r2),
            old(sx).pending(*self).len() > 0 ==> (match r {
                Ok(Some(m)) => m.spec_msg() == old(sx).pending(*self)[0] && final(sx).cursor(*self)
                    == old(sx).cursor(*self) + 1 && final(sx).waiting_ids() == old(sx).waiting_ids(),
                _ => false,
            }),
            old(sx).pending(*self).len() == 0 ==> r == Ok::<Option<MsgRef<T>>, RecvError>(None)
                && final(sx).cursor(*self) == old(sx).cursor(*self) && final(sx).is_waiting(*self)
                && final(sx).waiting_ids().len() <= old(sx).waiting_ids().len() + 1,
            old(sx).pending(*self).len() == 0 && old(sx).is_waiting(*self) ==> final(sx).waiting_ids() == old(sx).waiting_ids(),
    {
        let ghost pre = *sx;
        let id = self.id;
        let cur = sx.cursors[id];
        let total = sx.base + sx.msgs.len();
        if cur < total {
            let idx = cur - sx.base;
            let node = arc_dup(&sx.msgs[idx]);
            sx.cursors.set(id, cur + 1);
            proof {
                assert(pre.pending(*self)[0] == pre.hist@[cur as int]);
            }
            Ok(Some(MsgRef { inner: node }))
        } else {
            proof {
                assert(pre.pending(*self) =~= Seq::<T>::empty());
            }
            let mut present = false;
            let mut k: usize = 0;
            while k < sx.waiting.len()
                invariant
                    k <= sx.waiting@.len(),
                    present == exists|j: int| 0 <= j < k && sx.waiting@[j] == id,
                decreases sx.waiting@.len() - k,
            {
                if sx.waiting[k] == id {
                    present = true;
                }
                k += 1;
            }
            if !present {
                sx.waiting.push(id);
                proof {
                    assert(sx.waiting_ids()[sx.waiting_ids().len() - 1] as nat == self.slot());
                }
            }
            proof {
                if present {
                    let j = choose|j: int|
                        0 <= j < pre.waiting_ids().len() && pre.waiting_ids()[j] == id;
                    assert(sx.waiting_ids()[j] as nat == self.slot());
                }
                assert forall|r2: Receiver| r2.slot() != self.slot() implies sx.is_waiting(r2)
                    == pre.is_waiting(r2) by {
                    if pre.is_waiting(r2) {
                        let j = choose|j: int|
                            0 <= j < pre.waiting_ids().len() && pre.waiting_ids()[j] as nat
                                == r2.slot();
                        assert(sx.waiting_ids()[j] as nat == r2.slot());
                    }
                    if sx.is_waiting(r2) {
                        let j = choose|j: int|
                            0 <= j < sx.waiting_ids().len() && sx.waiting_ids()[j] as nat
                                == r2.slot();
                        assert(0 <= j < pre.waiting_ids().len() && pre.waiting_ids()[j] as nat
                            == r2.slot());
                    }
                }
                if pre.is_waiting(*self) {
                    let j = choose|j: int|
                        0 <= j < pre.waiting_ids().len() && pre.waiting_ids()[j] as nat
                            == self.slot();
                    assert(pre.waiting_ids()[j] == id);
                    assert(present);
                }
            }
            Ok(None)
        }
    }

    /// Receives everything pending, in publish order: the receiver's stream
    /// of messages is exactly the suffix of the history published after its
    /// cursor (suffix delivery).
    pub fn recv_all<T>(&self, sx: &mut Sender<T>) -> (r: Result<Vec<MsgRef<T>>, RecvError>)
        requires
            old(sx).wf(),
            old(sx).is_subscriber(*self),
        ensures
            final(sx).wf(),
            final(sx).is_subscriber(*self),
            final(sx).history() == old(sx).history(),
            final(sx).num_receivers() == old(sx).num_receivers(),
            final(sx).reclaimed() == old(sx).reclaimed(),
            final(sx).retained() == old(sx).retained(),
            final(sx).waiting_ids() == old(sx).waiting_ids(),
            forall|r2: Receiver|
                old(sx).is_subscriber(r2) && r2.slot() != self.slot() ==> final(sx).is_subscriber(
                    r2,
                ) && final(sx).cursor(r2) == old(sx).cursor(r2),
            match r {
                Ok(v) => {
                    &&& v@.len() == old(sx).pending(*self).len()
                    &&& forall|i: int|
                        0 <= i < v@.len() ==> (#[trigger] v@[i]).spec_msg() == old(sx).pending(
                            *self,
                        )[i]
                    &&& final(sx).pending(*self).len() == 0
                },
                Err(_) => false,
            },
    {
        let ghost pre = *sx;
        let mut out: Vec<MsgRef<T>> = Vec::new();
        loop
            invariant
                sx.wf(),
                sx.is_subscriber(*self),
                sx.history() == pre.history(),
                sx.num_receivers() == pre.num_receivers(),
                sx.reclaimed() == pre.reclaimed(),
                sx.retained() == pre.retained(),
                sx.waiting_ids() == pre.waiting_ids(),
                forall|r2: Receiver|
                    pre.is_subscriber(r2) && r2.slot() != self.slot() ==> sx.is_subscriber(r2)
                        && sx.cursor(r2) == pre.cursor(r2),
                out@.len() + sx.pending(*self).len() == pre.pending(*self).len(),
                sx.cursor(*self) == pre.cursor(*self) + out@.len(),
                forall|i: int|
                    0 <= i < out@.len() ==> (#[trigger] out@[i]).spec_msg() == pre.pending(
                        *self,
                    )[i],
            ensures
                sx.pending(*self).len() == 0,
            decreases sx.pending(*self).len(),
        {
            let ghost before = *sx;
            match self.try_recv(sx) {
                Ok(Some(m)) => {
                    proof {
                        assert(before.pending(*self)[0] == pre.pending(
                            *self,
                        )[out@.len() as int]);
                    }
                    out.push(m);
                },
                Ok(None) => {
                    break ;
                },
                Err(e) => {
                    return Err(e);
                },
            }
        }
        Ok(out)
    }
}

/// No replay: a receiver's cursor never falls below the history length at
/// its subscription, and everything it has yet to observe lies at or beyond
/// its cursor, so a message published before the subscription is never
/// delivered to it.
pub proof fn lemma_no_replay<T>(sx: Sender<T>, rx: Receiver)
    requires
        sx.wf(),
        sx.is_subscriber(rx),
    ensures
        sx.cursor(rx) >= rx.sub_time(),
        sx.pending(rx) == sx.history().subrange(sx.cursor(rx) as int, sx.history().len() as int),
        forall|j: int|
            0 <= j < sx.pending(rx).len() ==> #[trigger] sx.pending(rx)[j] == sx.history()[sx.cursor(
                rx,
            ) + j],
{
}

/// Fan-out equivalence: receivers whose cursors agree — in particular,
/// receivers subscribed at the same logical time — observe the identical
/// sequence of messages from here on.
pub proof fn lemma_fan_out<T>(sx: Sender<T>, r1: Receiver, r2: Receiver)
    requires
        sx.wf(),
        sx.is_subscriber(r1),
        sx.is_subscriber(r2),
        sx.cursor(r1) == sx.cursor(r2),
    ensures
        sx.pending(r1) == sx.pending(r2),
{
}

/// Waker coalescing: the parked list never holds a receiver twice, so the
/// wakeups handed out by a publish — the whole parked list, which the
/// publish then empties — are at most one per parked receiver.
pub proof fn lemma_wakers_unique<T>(sx: Sender<T>)
    requires
        sx.wf(),
    ensures
        forall|k1: int, k2: int|
            0 <= k1 < k2 < sx.waiting_ids().len() ==> sx.waiting_ids()[k1] != sx.waiting_ids()[k2],
{
}

/// Reclamation: the sender retains exactly the history entries from its
/// reclamation point on, and that point never passes any subscriber's
/// cursor, so a node is dropped exactly when every subscriber has observed
/// it (save the most recent node, which the sender itself keeps).
pub proof fn lemma_reclamation<T>(sx: Sender<T>)
    requires
        sx.wf(),
    ensures
        sx.retained() == sx.history().subrange(sx.reclaimed() as int, sx.history().len() as int),
        forall|r2: Receiver| sx.is_subscriber(r2) ==> sx.reclaimed() <= sx.cursor(r2),
{
    assert(sx.retained() =~= sx.history().subrange(
        sx.reclaimed() as int,
        sx.history().len() as int,
    ));
}

} // verus!
