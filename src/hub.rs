//! Fan-out of change notifications to registered subscribers.
//!
//! Each subscriber has a bounded queue. A broadcast appends the event to
//! every queue that has room; a full queue misses it. Connection ids come
//! from a counter and are never reused.

use vstd::prelude::*;
use crate::record::{FaceEmbedding, RecordView};

verus! {

/// Events pushed to subscribers.
pub enum WsMessage {
    FaceDetected(FaceEmbedding),
    FaceUpdated(FaceEmbedding),
    FaceDeleted(String),
    Error(String),
}

pub enum EventView {
    Detected(RecordView),
    Updated(RecordView),
    Deleted(Seq<char>),
    Error(Seq<char>),
}

impl View for WsMessage {
    type V = EventView;

    open spec fn view(&self) -> EventView {
        match self {
            WsMessage::FaceDetected(f) => EventView::Detected(f@),
            WsMessage::FaceUpdated(f) => EventView::Updated(f@),
            WsMessage::FaceDeleted(id) => EventView::Deleted(id@),
            WsMessage::Error(m) => EventView::Error(m@),
        }
    }
}

impl WsMessage {
    pub fn duplicate(&self) -> (r: WsMessage)
        ensures
            r@ == self@,
    {
        match self {
            WsMessage::FaceDetected(f) => WsMessage::FaceDetected(f.duplicate()),
            WsMessage::FaceUpdated(f) => WsMessage::FaceUpdated(f.duplicate()),
            WsMessage::FaceDeleted(id) => WsMessage::FaceDeleted(id.clone()),
            WsMessage::Error(m) => WsMessage::Error(m.clone()),
        }
    }
}

/// How many undelivered events a subscriber's queue holds.
pub const CHANNEL_CAPACITY: usize = 100;

/// A queue after a broadcast: the event is appended if there is room.
pub open spec fn deliver(q: Seq<EventView>, e: EventView) -> Seq<EventView> {
    if q.len() < CHANNEL_CAPACITY {
        q.push(e)
    } else {
        q
    }
}

/// A subscriber: its connection id and its pending events.
pub type Conn = (u64, Seq<EventView>);

/// The registry after a broadcast of `e`.
pub open spec fn broadcast_all(subs: Seq<Conn>, e: EventView) -> Seq<Conn> {
    subs.map_values(|c: Conn| (c.0, deliver(c.1, e)))
}

/// Some subscriber has the id.
pub open spec fn has_conn(subs: Seq<Conn>, id: u64) -> bool {
    exists|i: int| 0 <= i < subs.len() && subs[i].0 == id
}

/// The position of the subscriber with the id.
pub open spec fn conn_index(subs: Seq<Conn>, id: u64) -> int {
    choose|i: int| 0 <= i < subs.len() && subs[i].0 == id
}

/// The pending events of the subscriber with the id; none if there is no
/// such subscriber.
pub open spec fn pending(subs: Seq<Conn>, id: u64) -> Seq<EventView> {
    if has_conn(subs, id) {
        subs[conn_index(subs, id)].1
    } else {
        Seq::empty()
    }
}

/// The registry without the subscriber with the id.
pub open spec fn disconnect(subs: Seq<Conn>, id: u64) -> Seq<Conn> {
    if has_conn(subs, id) {
        subs.remove(conn_index(subs, id))
    } else {
        subs
    }
}

/// No two subscribers share an id.
pub open spec fn unique_conns(subs: Seq<Conn>) -> bool {
    forall|i: int, j: int| 0 <= i < j < subs.len() ==> subs[i].0 != subs[j].0
}

struct Subscriber {
    id: u64,
    queue: Vec<WsMessage>,
}

/// The subscriber registry.
pub struct WsManager {
    next_id: u64,
    connections: Vec<Subscriber>,
}

impl WsManager {
    /// The subscribers, in order of registration.
    pub closed spec fn conns(&self) -> Seq<Conn> {
        self.connections@.map_values(|s: Subscriber| (s.id, s.queue@.map_values(|m: WsMessage| m@)))
    }

    /// The id that the next connection gets.
    pub closed spec fn next_id(&self) -> u64 {
        self.next_id
    }

    /// Ids are unique, below the next id, and queues within capacity.
    pub open spec fn wf(&self) -> bool {
        &&& unique_conns(self.conns())
        &&& forall|i: int| 0 <= i < self.conns().len() ==> #[trigger] self.conns()[i].0 < self.next_id()
        &&& forall|i: int| 0 <= i < self.conns().len() ==> #[trigger] self.conns()[i].1.len() <= CHANNEL_CAPACITY
    }

    /// A registry with no subscribers.
    pub fn new() -> (r: Self)
        ensures
            r.wf(),
            r.conns() == Seq::<Conn>::empty(),
            r.next_id() == 0,
    {
        let r = WsManager { next_id: 0, connections: Vec::new() };
        assert(r.conns() =~= Seq::<Conn>::empty());
        r
    }

    /// Registers a subscriber with an empty queue and returns its id; none
    /// once the id space is spent.
    pub fn create_connection(&mut self) -> (r: Option<u64>)
        requires
            old(self).wf(),
        ensures
            final(self).wf(),
            old(self).next_id() == u64::MAX ==> r.is_none() && final(self).conns() == old(self).conns()
                && final(self).next_id() == old(self).next_id(),
            old(self).next_id() < u64::MAX ==> final(self).next_id() == old(self).next_id() + 1,
            old(self).next_id() < u64::MAX ==> r == Some(old(self).next_id()) && !has_conn(
                old(self).conns(),
                old(self).next_id(),
            ) && final(self).conns() == old(self).conns().push((old(self).next_id(), Seq::empty())),
    {
        if self.next_id == u64::MAX {
            return None;
        }
        let id = self.next_id;
        let ghost before = self.conns();
        assert(!has_conn(before, id)) by {
            if has_conn(before, id) {
                let i = choose|i: int| 0 <= i < before.len() && before[i].0 == id;
                assert(before[i].0 < id);
            }
        }
        let fresh = Subscriber { id, queue: Vec::new() };
        assert(fresh.queue@.map_values(|m: WsMessage| m@) =~= Seq::<EventView>::empty());
        self.connections.push(fresh);
        self.next_id = id + 1;
        assert(self.conns() =~= before.push((id, Seq::<EventView>::empty())));
        assert forall|i: int, j: int| 0 <= i < j < self.conns().len() implies self.conns()[i].0
            != self.conns()[j].0 by {
            if j == before.len() {
                assert(self.conns()[i] == before[i]);
            }
        }
        assert forall|i: int| 0 <= i < self.conns().len() implies #[trigger] self.conns()[i].0 < self.next_id()
            && self.conns()[i].1.len() <= CHANNEL_CAPACITY by {
            if i < before.len() {
                assert(self.conns()[i] == before[i]);
            }
        }
        Some(id)
    }

    /// The position of the subscriber with the id, if any.
    fn find(&self, id: u64) -> (r: Option<usize>)
        requires
            self.wf(),
        ensures
            r.is_some() == has_conn(self.conns(), id),
            r.is_some() ==> r.unwrap() == conn_index(self.conns(), id),
    {
        let mut i: usize = 0;
        while i < self.connections.len()
            invariant
                self.wf(),
                i <= self.connections@.len(),
                self.conns().len() == self.connections@.len(),
                forall|k: int| 0 <= k < i ==> self.conns()[k].0 != id,
            decreases self.connections@.len() - i,
        {
            assert(self.conns()[i as int].0 == self.connections@[i as int].id);
            if self.connections[i].id == id {
                let ghost j = conn_index(self.conns(), id);
                assert(has_conn(self.conns(), id));
                assert(j == i as int) by {
                    if j < i as int {
                        assert(self.conns()[j].0 != id);
                    } else if j > i as int {
                        assert(self.conns()[i as int].0 != self.conns()[j].0);
                    }
                }
                return Some(i);
            }
            i = i + 1;
        }
        None
    }

    /// Unregisters the subscriber with the id; an unknown id is no error.
    pub fn remove_connection(&mut self, id: u64)
        requires
            old(self).wf(),
        ensures
            final(self).wf(),
            final(self).next_id() == old(self).next_id(),
            final(self).conns() == disconnect(old(self).conns(), id),
    {
        match self.find(id) {
            Some(i) => {
                let ghost before = self.conns();
                let _gone = self.connections.remove(i);
                assert(self.conns() =~= before.remove(i as int));
                assert forall|a: int, b: int| 0 <= a < b < self.conns().len() implies self.conns()[a].0
                    != self.conns()[b].0 by {
                    if a < i {
                        if b >= i {
                            assert(self.conns()[b] == before[b + 1]);
                        }
                    } else {
                        assert(self.conns()[a] == before[a + 1]);
                        assert(self.conns()[b] == before[b + 1]);
                    }
                }
                assert forall|k: int| 0 <= k < self.conns().len() implies #[trigger] self.conns()[k].0
                    < self.next_id() && self.conns()[k].1.len() <= CHANNEL_CAPACITY by {
                    if k >= i {
                        assert(self.conns()[k] == before[k + 1]);
                    }
                }
            },
            None => {},
        }
    }

    /// Appends the event to the queue of every subscriber that has room.
    pub fn broadcast(&mut self, msg: WsMessage)
        requires
            old(self).wf(),
        ensures
            final(self).wf(),
            final(self).next_id() == old(self).next_id(),
            final(self).conns() == broadcast_all(old(self).conns(), msg@),
    {
        let ghost before = self.conns();
        let ghost e = msg@;
        let mut i: usize = 0;
        while i < self.connections.len()
            invariant
                e == msg@,
                before.len() == self.connections@.len(),
                self.conns().len() == self.connections@.len(),
                self.next_id() == old(self).next_id(),
                i <= self.connections@.len(),
                forall|k: int| 0 <= k < i ==> #[trigger] self.conns()[k] == (before[k].0, deliver(before[k].1, e)),
                forall|k: int| i <= k < before.len() ==> #[trigger] self.conns()[k] == before[k],
                forall|k: int| 0 <= k < before.len() ==> #[trigger] before[k].1.len() <= CHANNEL_CAPACITY,
            decreases self.connections@.len() - i,
        {
            let ghost cur = self.conns();
            let ghost cv = self.connections@;
            assert(cur[i as int] == before[i as int]);
            assert(cur[i as int] == (cv[i as int].id, cv[i as int].queue@.map_values(|m: WsMessage| m@)));
            let mut sub = self.connections.remove(i);
            assert(sub == cv[i as int]);
            if sub.queue.len() < CHANNEL_CAPACITY {
                let ghost q0 = sub.queue@;
                sub.queue.push(msg.duplicate());
                assert(sub.queue@.map_values(|m: WsMessage| m@) =~= q0.map_values(|m: WsMessage| m@).push(e));
            }
            let ghost sv = sub;
            self.connections.insert(i, sub);
            assert(self.connections@ =~= cv.update(i as int, sv));
            assert(self.conns()[i as int] == (before[i as int].0, deliver(before[i as int].1, e)));
            assert forall|k: int| 0 <= k < self.conns().len() && k != i implies #[trigger] self.conns()[k]
                == cur[k] by {
                assert(self.connections@[k] == cv[k]);
            }
            i = i + 1;
        }
        assert(self.conns() =~= broadcast_all(before, e));
        assert forall|k: int| 0 <= k < self.conns().len() implies #[trigger] self.conns()[k].0 < self.next_id()
            && self.conns()[k].1.len() <= CHANNEL_CAPACITY by {
            assert(self.conns()[k] == (before[k].0, deliver(before[k].1, e)));
        }
        assert forall|a: int, b: int| 0 <= a < b < self.conns().len() implies self.conns()[a].0
            != self.conns()[b].0 by {
            assert(self.conns()[a].0 == before[a].0);
            assert(self.conns()[b].0 == before[b].0);
        }
    }

    /// Takes the oldest pending event of the subscriber with the id.
    pub fn receive(&mut self, id: u64) -> (r: Option<WsMessage>)
        requires
            old(self).wf(),
        ensures
            final(self).wf(),
            final(self).next_id() == old(self).next_id(),
            pending(old(self).conns(), id).len() == 0 ==> r.is_none() && final(self).conns() == old(
                self,
            ).conns(),
            pending(old(self).conns(), id).len() > 0 ==> {
                let i = conn_index(old(self).conns(), id);
                &&& r.is_some()
                &&& r.unwrap()@ == pending(old(self).conns(), id)[0]
                &&& final(self).conns() == old(self).conns().update(
                    i,
                    (id, pending(old(self).conns(), id).drop_first()),
                )
            },
    {
        let i = match self.find(id) {
            Some(i) => i,
            None => {
                return None;
            },
        };
        let ghost before = self.conns();
        if self.connections[i].queue.len() == 0 {
            assert(before[i as int].1.len() == 0);
            return None;
        }
        let mut sub = self.connections.remove(i);
        let ghost q0 = sub.queue@;
        let first = sub.queue.remove(0);
        assert(sub.queue@.map_values(|m: WsMessage| m@) =~= q0.map_values(|m: WsMessage| m@).drop_first());
        self.connections.insert(i, sub);
        assert(self.conns() =~= before.update(i as int, (id, before[i as int].1.drop_first())));
        assert forall|a: int, b: int| 0 <= a < b < self.conns().len() implies self.conns()[a].0
            != self.conns()[b].0 by {
            assert(self.conns()[a].0 == before[a].0);
            assert(self.conns()[b].0 == before[b].0);
        }
        assert forall|k: int| 0 <= k < self.conns().len() implies #[trigger] self.conns()[k].0 < self.next_id()
            && self.conns()[k].1.len() <= CHANNEL_CAPACITY by {
            if k != i {
                assert(self.conns()[k] == before[k]);
            }
        }
        Some(first)
    }
}

/// In a registry with unique ids, the subscriber at position `i` is the one
/// that `conn_index` finds.
pub proof fn lemma_conn_index(subs: Seq<Conn>, id: u64, i: int)
    requires
        unique_conns(subs),
        0 <= i < subs.len(),
        subs[i].0 == id,
    ensures
        has_conn(subs, id),
        conn_index(subs, id) == i,
{
    let j = conn_index(subs, id);
    if j != i {
        if j < i {
            assert(subs[j].0 != subs[i].0);
        } else {
            assert(subs[i].0 != subs[j].0);
        }
    }
}

/// A broadcast keeps the subscribers and appends the event to each queue
/// that has room.
pub proof fn lemma_pending_after_broadcast(subs: Seq<Conn>, id: u64, e: EventView)
    requires
        unique_conns(subs),
    ensures
        unique_conns(broadcast_all(subs, e)),
        has_conn(broadcast_all(subs, e), id) == has_conn(subs, id),
        has_conn(subs, id) ==> pending(broadcast_all(subs, e), id) == deliver(pending(subs, id), e),
{
    let t = broadcast_all(subs, e);
    assert forall|a: int, b: int| 0 <= a < b < t.len() implies t[a].0 != t[b].0 by {
        assert(subs[a].0 != subs[b].0);
    }
    if has_conn(subs, id) {
        let i = conn_index(subs, id);
        lemma_conn_index(subs, id, i);
        assert(t[i].0 == id);
        lemma_conn_index(t, id, i);
    }
    if has_conn(t, id) {
        let i = conn_index(t, id);
        assert(subs[i].0 == id);
    }
}

/// Removing a subscriber leaves the others and their queues as they were.
pub proof fn lemma_pending_after_disconnect(subs: Seq<Conn>, gone: u64, id: u64)
    requires
        unique_conns(subs),
    ensures
        unique_conns(disconnect(subs, gone)),
        !has_conn(disconnect(subs, gone), gone),
        id != gone ==> has_conn(disconnect(subs, gone), id) == has_conn(subs, id),
        id != gone && has_conn(subs, id) ==> pending(disconnect(subs, gone), id) == pending(subs, id),
{
    let t = disconnect(subs, gone);
    if has_conn(subs, gone) {
        let g = conn_index(subs, gone);
        lemma_conn_index(subs, gone, g);
        assert forall|a: int, b: int| 0 <= a < b < t.len() implies t[a].0 != t[b].0 by {
            if a < g {
                if b >= g {
                    assert(t[b] == subs[b + 1]);
                }
            } else {
                assert(t[a] == subs[a + 1]);
                assert(t[b] == subs[b + 1]);
            }
        }
        if has_conn(t, gone) {
            let k = choose|k: int| 0 <= k < t.len() && t[k].0 == gone;
            if k < g {
                assert(subs[k].0 == gone);
            } else {
                assert(subs[k + 1].0 == gone);
            }
        }
        if id != gone {
            if has_conn(subs, id) {
                let i = conn_index(subs, id);
                lemma_conn_index(subs, id, i);
                let k = if i < g {
                    i
                } else {
                    i - 1
                };
                assert(t[k] == subs[i]);
                lemma_conn_index(t, id, k);
            }
            if has_conn(t, id) {
                let k = choose|k: int| 0 <= k < t.len() && t[k].0 == id;
                if k < g {
                    assert(subs[k].0 == id);
                } else {
                    assert(subs[k + 1].0 == id);
                }
            }
        }
    }
}

/// Two live subscribers both receive two broadcasts, in the order they
/// were made; once one of them is removed, a further broadcast reaches
/// only the other.
pub proof fn lemma_fanout_order(
    subs: Seq<Conn>,
    a: u64,
    b: u64,
    e1: EventView,
    e2: EventView,
    e3: EventView,
)
    requires
        unique_conns(subs),
        has_conn(subs, a),
        has_conn(subs, b),
        a != b,
        pending(subs, a).len() + 2 <= CHANNEL_CAPACITY,
        pending(subs, b).len() + 3 <= CHANNEL_CAPACITY,
    ensures
        pending(broadcast_all(broadcast_all(subs, e1), e2), a) == pending(subs, a).push(e1).push(e2),
        pending(broadcast_all(broadcast_all(subs, e1), e2), b) == pending(subs, b).push(e1).push(e2),
        !has_conn(broadcast_all(disconnect(broadcast_all(broadcast_all(subs, e1), e2), a), e3), a),
        pending(broadcast_all(disconnect(broadcast_all(broadcast_all(subs, e1), e2), a), e3), b)
            == pending(subs, b).push(e1).push(e2).push(e3),
{
    let s1 = broadcast_all(subs, e1);
    let s2 = broadcast_all(s1, e2);
    let s3 = disconnect(s2, a);
    lemma_pending_after_broadcast(subs, a, e1);
    lemma_pending_after_broadcast(subs, b, e1);
    lemma_pending_after_broadcast(s1, a, e2);
    lemma_pending_after_broadcast(s1, b, e2);
    lemma_pending_after_disconnect(s2, a, b);
    lemma_pending_after_broadcast(s3, a, e3);
    lemma_pending_after_broadcast(s3, b, e3);
}

/// Announces a newly detected face.
pub fn notify_face_detected(manager: &mut WsManager, face: FaceEmbedding)
    requires
        old(manager).wf(),
    ensures
        final(manager).wf(),
        final(manager).next_id() == old(manager).next_id(),
        final(manager).conns() == broadcast_all(old(manager).conns(), EventView::Detected(face@)),
{
    manager.broadcast(WsMessage::FaceDetected(face));
}

/// Announces an updated face.
pub fn notify_face_updated(manager: &mut WsManager, face: FaceEmbedding)
    requires
        old(manager).wf(),
    ensures
        final(manager).wf(),
        final(manager).next_id() == old(manager).next_id(),
        final(manager).conns() == broadcast_all(old(manager).conns(), EventView::Updated(face@)),
{
    manager.broadcast(WsMessage::FaceUpdated(face));
}

/// Announces a deleted face.
pub fn notify_face_deleted(manager: &mut WsManager, face_id: String)
    requires
        old(manager).wf(),
    ensures
        final(manager).wf(),
        final(manager).next_id() == old(manager).next_id(),
        final(manager).conns() == broadcast_all(old(manager).conns(), EventView::Deleted(face_id@)),
{
    manager.broadcast(WsMessage::FaceDeleted(face_id));
}

/// Announces an error.
pub fn notify_error(manager: &mut WsManager, error: String)
    requires
        old(manager).wf(),
    ensures
        final(manager).wf(),
        final(manager).next_id() == old(manager).next_id(),
        final(manager).conns() == broadcast_all(old(manager).conns(), EventView::Error(error@)),
{
    manager.broadcast(WsMessage::Error(error));
}

} // verus!
