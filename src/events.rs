//! Events and their dispatcher: subscribers are kept per event tag, either
//! persistent or one-shot; dispatching an event names the subscribers to call
//! and drops the one-shot subscribers of its tag.
use vstd::prelude::*;

verus! {

/// Something that can be emitted to subscribers.
pub trait ClientEvent {
    /// The tag that selects the subscribers of this kind of event.
    fn event_tag() -> u32;
}

pub const SPAWN_EVENT: u32 = 0;
pub const DEATH_EVENT: u32 = 1;
pub const DISCONNECT_EVENT: u32 = 2;
pub const CHAT_MESSAGE_EVENT: u32 = 3;
pub const KEEP_ALIVE_EVENT: u32 = 4;

/// Emitted when the player spawns for the first time (on login).
#[derive(Debug, Clone, Copy)]
pub struct SpawnEvent;

/// Emitted when the player dies.
#[derive(Debug, Clone, Copy)]
pub struct DeathEvent;

/// Emitted when the client disconnects from the server.
#[derive(Debug, Clone, Copy)]
pub struct DisconnectEvent;

/// Emitted when a keep-alive packet is received.
#[derive(Debug, Clone, Copy)]
pub struct KeepAlivePacketEvent {
    pub id: i64,
}

impl ClientEvent for SpawnEvent {
    fn event_tag() -> u32 {
        SPAWN_EVENT
    }
}

impl ClientEvent for DeathEvent {
    fn event_tag() -> u32 {
        DEATH_EVENT
    }
}

impl ClientEvent for DisconnectEvent {
    fn event_tag() -> u32 {
        DISCONNECT_EVENT
    }
}

impl ClientEvent for KeepAlivePacketEvent {
    fn event_tag() -> u32 {
        KEEP_ALIVE_EVENT
    }
}

/// The subscriber ids of `subs` (tag, id pairs) registered for `tag`, in order.
pub open spec fn ids_for(subs: Seq<(u32, u64)>, tag: u32) -> Seq<u64>
    decreases subs.len(),
{
    if subs.len() == 0 {
        Seq::empty()
    } else if subs.last().0 == tag {
        ids_for(subs.drop_last(), tag).push(subs.last().1)
    } else {
        ids_for(subs.drop_last(), tag)
    }
}

/// `subs` without the subscriptions for `tag`.
pub open spec fn without_tag(subs: Seq<(u32, u64)>, tag: u32) -> Seq<(u32, u64)>
    decreases subs.len(),
{
    if subs.len() == 0 {
        Seq::empty()
    } else if subs.last().0 == tag {
        without_tag(subs.drop_last(), tag)
    } else {
        without_tag(subs.drop_last(), tag).push(subs.last())
    }
}

/// The subscription state of a dispatcher.
pub struct DispatcherModel {
    pub persistent: Seq<(u32, u64)>,
    pub once: Seq<(u32, u64)>,
    pub next_id: nat,
}

/// How many subscriptions in `subs` have the id `x`.
pub open spec fn id_count(subs: Seq<(u32, u64)>, x: u64) -> nat
    decreases subs.len(),
{
    if subs.len() == 0 {
        0
    } else {
        id_count(subs.drop_last(), x) + if subs.last().1 == x {
            1nat
        } else {
            0nat
        }
    }
}

/// Every id was handed out before `next_id`.
pub open spec fn model_wf(m: DispatcherModel) -> bool {
    &&& forall|i: int| 0 <= i < m.persistent.len() ==> (#[trigger] m.persistent[i]).1 < m.next_id
    &&& forall|i: int| 0 <= i < m.once.len() ==> (#[trigger] m.once[i]).1 < m.next_id
}

/// One step on a dispatcher.
pub enum DispatchOp {
    Subscribe(u32),
    SubscribeOnce(u32),
    Dispatch(u32),
}

/// The state after `op` and the subscribers it calls. Once every id has been
/// handed out, subscribing changes nothing.
pub open spec fn apply_op(m: DispatcherModel, op: DispatchOp) -> (DispatcherModel, Seq<u64>) {
    match op {
        DispatchOp::Subscribe(tag) => if m.next_id < u64::MAX {
            (
                DispatcherModel {
                    persistent: m.persistent.push((tag, m.next_id as u64)),
                    next_id: m.next_id + 1,
                    ..m
                },
                Seq::empty(),
            )
        } else {
            (m, Seq::empty())
        },
        DispatchOp::SubscribeOnce(tag) => if m.next_id < u64::MAX {
            (
                DispatcherModel {
                    once: m.once.push((tag, m.next_id as u64)),
                    next_id: m.next_id + 1,
                    ..m
                },
                Seq::empty(),
            )
        } else {
            (m, Seq::empty())
        },
        DispatchOp::Dispatch(tag) => (
            DispatcherModel { once: without_tag(m.once, tag), ..m },
            ids_for(m.persistent, tag) + ids_for(m.once, tag),
        ),
    }
}

/// How many times `x` occurs in `s`.
pub open spec fn occurrences(s: Seq<u64>, x: u64) -> nat
    decreases s.len(),
{
    if s.len() == 0 {
        0
    } else {
        occurrences(s.drop_last(), x) + if s.last() == x {
            1nat
        } else {
            0nat
        }
    }
}

/// How many times the subscriber `x` is called while `ops` run from `m`.
pub open spec fn times_called(m: DispatcherModel, ops: Seq<DispatchOp>, x: u64) -> nat
    decreases ops.len(),
{
    if ops.len() == 0 {
        0
    } else {
        occurrences(apply_op(m, ops[0]).1, x) + times_called(
            apply_op(m, ops[0]).0,
            ops.drop_first(),
            x,
        )
    }
}

proof fn lemma_occurrences_concat(a: Seq<u64>, b: Seq<u64>, x: u64)
    ensures
        occurrences(a + b, x) == occurrences(a, x) + occurrences(b, x),
    decreases b.len(),
{
    if b.len() > 0 {
        lemma_occurrences_concat(a, b.drop_last(), x);
        assert((a + b).drop_last() =~= a + b.drop_last());
    } else {
        assert(a + b =~= a);
    }
}

/// Dispatching `tag` splits the subscriptions with id `x` into those it calls
/// and those it keeps.
proof fn lemma_dispatch_count(subs: Seq<(u32, u64)>, tag: u32, x: u64)
    ensures
        id_count(subs, x) == occurrences(ids_for(subs, tag), x) + id_count(
            without_tag(subs, tag),
            x,
        ),
    decreases subs.len(),
{
    if subs.len() > 0 {
        let init = subs.drop_last();
        lemma_dispatch_count(init, tag, x);
        if subs.last().0 == tag {
            assert(ids_for(subs, tag).drop_last() =~= ids_for(init, tag));
        } else {
            assert(without_tag(subs, tag).drop_last() =~= without_tag(init, tag));
        }
    }
}

/// Ids below `n` leave `n` uncounted.
proof fn lemma_fresh_count(subs: Seq<(u32, u64)>, n: nat)
    requires
        n <= u64::MAX,
        forall|i: int| 0 <= i < subs.len() ==> (#[trigger] subs[i]).1 < n,
    ensures
        id_count(subs, n as u64) == 0,
    decreases subs.len(),
{
    if subs.len() > 0 {
        let init = subs.drop_last();
        assert forall|i: int| 0 <= i < init.len() implies (#[trigger] init[i]).1 < n by {
            assert(init[i] == subs[i]);
        }
        lemma_fresh_count(init, n);
        assert(subs[subs.len() - 1] == subs.last());
    }
}

/// Over any run, a subscriber that is not persistent and whose id has been
/// handed out is called at most as often as it is subscribed one-shot.
proof fn lemma_one_shot_run(m: DispatcherModel, ops: Seq<DispatchOp>, x: u64)
    requires
        id_count(m.persistent, x) == 0,
        (x as nat) < m.next_id,
    ensures
        times_called(m, ops, x) <= id_count(m.once, x),
    decreases ops.len(),
{
    if ops.len() > 0 {
        let m2 = apply_op(m, ops[0]).0;
        match ops[0] {
            DispatchOp::Subscribe(tag) => {
                if m.next_id < u64::MAX {
                    assert(m2.persistent.drop_last() =~= m.persistent);
                    assert((m.next_id as u64) as nat == m.next_id);
                }
            },
            DispatchOp::SubscribeOnce(tag) => {
                if m.next_id < u64::MAX {
                    assert(m2.once.drop_last() =~= m.once);
                }
            },
            DispatchOp::Dispatch(tag) => {
                lemma_dispatch_count(m.persistent, tag, x);
                lemma_dispatch_count(m.once, tag, x);
                lemma_occurrences_concat(ids_for(m.persistent, tag), ids_for(m.once, tag), x);
            },
        }
        lemma_one_shot_run(m2, ops.drop_first(), x);
    }
}

/// A one-shot subscriber is called at most once, whatever subscriptions and
/// dispatches follow its registration.
pub proof fn lemma_one_shot_fires_at_most_once(m: DispatcherModel, tag: u32, ops: Seq<DispatchOp>)
    requires
        model_wf(m),
        m.next_id < u64::MAX,
    ensures
        times_called(apply_op(m, DispatchOp::SubscribeOnce(tag)).0, ops, m.next_id as u64) <= 1,
{
    let x = m.next_id as u64;
    let m2 = apply_op(m, DispatchOp::SubscribeOnce(tag)).0;
    lemma_fresh_count(m.persistent, m.next_id);
    lemma_fresh_count(m.once, m.next_id);
    assert(m2.once.drop_last() =~= m.once);
    lemma_one_shot_run(m2, ops, x);
}

/// Keeps subscribers per event tag (persistent and one-shot) and a queue of
/// events waiting to be dispatched. A subscriber is known by the id that
/// registering it returned.
pub struct ClientEventDispatcher<E> {
    handlers: Vec<(u32, u64)>,
    handlers_once: Vec<(u32, u64)>,
    event_queue: Vec<(u32, E)>,
    next_id: u64,
}

impl<E> ClientEventDispatcher<E> {
    pub closed spec fn model(&self) -> DispatcherModel {
        DispatcherModel {
            persistent: self.handlers@,
            once: self.handlers_once@,
            next_id: self.next_id as nat,
        }
    }

    /// The events waiting to be dispatched, with their tags, oldest first.
    pub closed spec fn queued(&self) -> Seq<(u32, E)> {
        self.event_queue@
    }

    /// No subscribers and no queued events.
    pub fn new() -> (r: ClientEventDispatcher<E>)
        ensures
            r.model() == (DispatcherModel {
                persistent: Seq::empty(),
                once: Seq::empty(),
                next_id: 0,
            }),
            r.queued() == Seq::<(u32, E)>::empty(),
            model_wf(r.model()),
    {
        ClientEventDispatcher {
            handlers: Vec::new(),
            handlers_once: Vec::new(),
            event_queue: Vec::new(),
            next_id: 0,
        }
    }

    /// Subscribes for every event with `tag`; `None` once all ids are used.
    pub fn register_handler(&mut self, tag: u32) -> (r: Option<u64>)
        ensures
            final(self).model() == apply_op(old(self).model(), DispatchOp::Subscribe(tag)).0,
            final(self).queued() == old(self).queued(),
            r == if old(self).model().next_id < u64::MAX {
                Some(old(self).model().next_id as u64)
            } else {
                None::<u64>
            },
    {
        if self.next_id == u64::MAX {
            return None;
        }
        let id = self.next_id;
        self.handlers.push((tag, id));
        self.next_id = id + 1;
        Some(id)
    }

    /// Subscribes for the next event with `tag` only; `None` once all ids are used.
    pub fn register_handler_once(&mut self, tag: u32) -> (r: Option<u64>)
        ensures
            final(self).model() == apply_op(old(self).model(), DispatchOp::SubscribeOnce(tag)).0,
            final(self).queued() == old(self).queued(),
            r == if old(self).model().next_id < u64::MAX {
                Some(old(self).model().next_id as u64)
            } else {
                None::<u64>
            },
    {
        if self.next_id == u64::MAX {
            return None;
        }
        let id = self.next_id;
        self.handlers_once.push((tag, id));
        self.next_id = id + 1;
        Some(id)
    }

    /// Queues an event for a later dispatch.
    pub fn queue(&mut self, tag: u32, event: E)
        ensures
            final(self).model() == old(self).model(),
            final(self).queued() == old(self).queued().push((tag, event)),
    {
        self.event_queue.push((tag, event));
    }

    /// Takes every queued event, oldest first.
    pub fn drain_queue(&mut self) -> (r: Vec<(u32, E)>)
        ensures
            final(self).model() == old(self).model(),
            r@ == old(self).queued(),
            final(self).queued() == Seq::<(u32, E)>::empty(),
    {
        let mut taken: Vec<(u32, E)> = Vec::new();
        std::mem::swap(&mut taken, &mut self.event_queue);
        taken
    }

    /// The subscribers to call for an event with `tag` (persistent ones
    /// first, each group in registration order); the one-shot subscribers of
    /// `tag` are dropped.
    pub fn dispatch(&mut self, tag: u32) -> (r: Vec<u64>)
        ensures
            (final(self).model(), r@) == apply_op(old(self).model(), DispatchOp::Dispatch(tag)),
            final(self).queued() == old(self).queued(),
    {
        let mut called: Vec<u64> = Vec::new();
        let mut i: usize = 0;
        while i < self.handlers.len()
            invariant
                i <= self.handlers@.len(),
                called@ == ids_for(self.handlers@.take(i as int), tag),
            decreases self.handlers@.len() - i,
        {
            assert(self.handlers@.take(i + 1).drop_last() =~= self.handlers@.take(i as int));
            if self.handlers[i].0 == tag {
                called.push(self.handlers[i].1);
            }
            i = i + 1;
        }
        assert(self.handlers@.take(i as int) =~= self.handlers@);
        let ghost persistent_ids = called@;
        let mut kept: Vec<(u32, u64)> = Vec::new();
        let mut once_ids: Vec<u64> = Vec::new();
        let mut j: usize = 0;
        while j < self.handlers_once.len()
            invariant
                j <= self.handlers_once@.len(),
                once_ids@ == ids_for(self.handlers_once@.take(j as int), tag),
                kept@ == without_tag(self.handlers_once@.take(j as int), tag),
            decreases self.handlers_once@.len() - j,
        {
            assert(self.handlers_once@.take(j + 1).drop_last() =~= self.handlers_once@.take(
                j as int,
            ));
            let entry = self.handlers_once[j];
            if entry.0 == tag {
                once_ids.push(entry.1);
            } else {
                kept.push(entry);
            }
            j = j + 1;
        }
        assert(self.handlers_once@.take(j as int) =~= self.handlers_once@);
        called.append(&mut once_ids);
        self.handlers_once = kept;
        called
    }
}

} // verus!
