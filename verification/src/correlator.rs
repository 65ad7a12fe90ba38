//! The request correlator: correlation ids and the table of pending requests
//! of one channel.
//!
//! Every request gets the next id of its channel. The id travels as the first
//! four bytes of the request body and of every reply to it, so inbound frames
//! are routed by that prefix alone.

use vstd::prelude::*;
use crate::bytes::{
    append, lemma_u32_bytes_round_trip, read_u32_be, spec_be_u32, spec_u32_bytes, u32_to_be,
};
use crate::codec::{
    encode, lemma_frame_round_trip, spec_decode, spec_frame, DecodeError, EncodeError,
};

verus! {

/// How a pending request ends when its channel goes away.
#[derive(Debug, PartialEq, Eq, Clone, Copy)]
pub enum ChannelError {
    /// The channel was closed or lost before the request completed.
    Disconnected,
}

/// Notice that the request `id` ended with `error`.
#[derive(Debug, PartialEq, Eq, Clone, Copy)]
pub struct Failure {
    pub id: u32,
    pub error: ChannelError,
}

/// What a protocol makes of one inbound frame.
pub enum Classified<T> {
    /// A result for the request `id`.
    Route { id: u32, value: T },
    /// The frame was handled; keep reading.
    Continue,
    /// The stream is out of step; the channel must be torn down.
    Reconnect,
    /// The service said goodbye.
    Shutdown,
}

/// What the read loop does after one frame.
#[derive(Debug, PartialEq, Eq, Clone)]
pub enum LoopControl {
    /// Read the next frame.
    Continue,
    /// Stop reading; these requests were pending and have failed.
    Stop { failed: Vec<Failure> },
}

/// One outstanding request with the results delivered to it so far.
pub struct PendingEntry<T> {
    id: u32,
    results: Vec<T>,
}

/// Ids and pending requests of one channel.
pub struct Correlator<T> {
    next_id: u32,
    entries: Vec<PendingEntry<T>>,
}

/// The correlation id at the front of a body.
pub open spec fn spec_embedded_id(body: Seq<u8>) -> Option<u32> {
    if body.len() < 4 {
        None
    } else {
        Some(spec_be_u32(body) as u32)
    }
}

/// Reads the correlation id that a body starts with, if it is long enough to
/// hold one.
pub fn embedded_id(body: &[u8]) -> (r: Option<u32>)
    ensures
        r == spec_embedded_id(body@),
{
    if body.len() < 4 {
        None
    } else {
        Some(read_u32_be(body))
    }
}

impl<T> Correlator<T> {
    /// The id that the next request will get.
    pub closed spec fn next_id(&self) -> u32 {
        self.next_id
    }

    spec fn has(&self, id: u32, i: int) -> bool {
        0 <= i < self.entries@.len() && self.entries@[i].id == id
    }

    spec fn index_of(&self, id: u32) -> int {
        choose|i: int| self.has(id, i)
    }

    /// The pending requests: each id with the results routed to it so far, in
    /// order of arrival.
    pub closed spec fn pending(&self) -> Map<u32, Seq<T>> {
        Map::new(
            |id: u32| exists|i: int| self.has(id, i),
            |id: u32| self.entries@[self.index_of(id)].results@,
        )
    }

    /// The pending ids stand in the order in which they were issued, none
    /// of them twice, and every one of them has been issued.
    pub closed spec fn wf(&self) -> bool {
        &&& forall|i: int, j: int|
            0 <= i < j < self.entries@.len() ==> self.entries@[i].id < self.entries@[j].id
        &&& forall|i: int|
            0 <= i < self.entries@.len() ==> (#[trigger] self.entries@[i]).id < self.next_id
    }

    /// A pending id is below the next id.
    pub proof fn lemma_pending_below_next(&self, id: u32)
        requires
            self.wf(),
            self.pending().contains_key(id),
        ensures
            id < self.next_id(),
    {
        let i = choose|i: int| self.has(id, i);
        assert(self.entries@[i].id < self.next_id);
    }

    /// A correlator for a fresh channel: ids start at 0, nothing is pending.
    pub fn new() -> (c: Self)
        ensures
            c.wf(),
            c.next_id() == 0,
            c.pending() == Map::<u32, Seq<T>>::empty(),
    {
        let c = Correlator { next_id: 0, entries: Vec::new() };
        assert(c.pending() =~= Map::<u32, Seq<T>>::empty());
        c
    }

    /// The id that the next request will get.
    pub fn peek_next_id(&self) -> (id: u32)
        ensures
            id == self.next_id(),
    {
        self.next_id
    }

    fn find(&self, id: u32) -> (r: Option<usize>)
        ensures
            match r {
                Some(i) => self.has(id, i as int),
                None => forall|i: int| !self.has(id, i),
            },
    {
        let mut i: usize = 0;
        while i < self.entries.len()
            invariant
                i <= self.entries@.len(),
                forall|j: int| 0 <= j < i ==> !self.has(id, j),
            decreases self.entries@.len() - i,
        {
            if self.entries[i].id == id {
                return Some(i);
            }
            i += 1;
        }
        None
    }

    /// Takes the next id and registers a pending entry for it, with no result
    /// yet. The ids of a channel never wrap: a channel that has used them up
    /// issues no more requests.
    pub fn register(&mut self) -> (id: u32)
        requires
            old(self).wf(),
            old(self).next_id() < u32::MAX,
        ensures
            final(self).wf(),
            id == old(self).next_id(),
            final(self).next_id() == id + 1,
            !old(self).pending().contains_key(id),
            final(self).pending() == old(self).pending().insert(id, Seq::<T>::empty()),
    {
        let id = self.next_id;
        let ghost before = *self;
        self.entries.push(PendingEntry { id, results: Vec::new() });
        self.next_id = id + 1;
        proof {
            let n = before.entries@.len() as int;
            assert(forall|i: int| 0 <= i < n ==> self.entries@[i] == before.entries@[i]);
            assert(!before.pending().contains_key(id)) by {
                if before.pending().contains_key(id) {
                    before.lemma_pending_below_next(id);
                }
            }
            assert(self.has(id, n));
            assert forall|k: u32| #[trigger]
                self.pending().contains_key(k) <==> before.pending().insert(
                    id,
                    Seq::<T>::empty(),
                ).contains_key(k) by {
                if before.pending().contains_key(k) {
                    let i = before.index_of(k);
                    assert(self.has(k, i));
                }
                if self.pending().contains_key(k) && k != id {
                    let i = self.index_of(k);
                    assert(before.has(k, i));
                }
            }
            assert forall|k: u32| #[trigger]
                self.pending().contains_key(k) implies self.pending()[k] == before.pending().insert(
                id,
                Seq::<T>::empty(),
            )[k] by {
                let i = self.index_of(k);
                assert(self.has(k, i));
                if k != id {
                    assert(before.has(k, i));
                    let j = before.index_of(k);
                    assert(before.has(k, j));
                    assert(i == j);
                } else {
                    assert(i == n);
                }
            }
            assert(self.pending() =~= before.pending().insert(id, Seq::<T>::empty()));
        }
        id
    }

    /// Whether the request `id` is pending.
    pub fn is_pending(&self, id: u32) -> (r: bool)
        ensures
            r == self.pending().contains_key(id),
    {
        self.find(id).is_some()
    }

    /// The number of results that the request `id` has got so far, if it is
    /// pending.
    pub fn result_count(&self, id: u32) -> (r: Option<usize>)
        requires
            self.wf(),
        ensures
            match r {
                Some(n) => self.pending().contains_key(id) && n == self.pending()[id].len(),
                None => !self.pending().contains_key(id),
            },
    {
        match self.find(id) {
            None => None,
            Some(i) => {
                proof {
                    let j = self.index_of(id);
                    assert(self.has(id, j));
                    assert(j == i);
                }
                Some(self.entries[i].results.len())
            },
        }
    }

    /// Hands `value` to the pending entry of `id`. A value for an id that is
    /// not pending is dropped, and nothing changes.
    pub fn route(&mut self, id: u32, value: T) -> (delivered: bool)
        requires
            old(self).wf(),
        ensures
            final(self).wf(),
            final(self).next_id() == old(self).next_id(),
            delivered == old(self).pending().contains_key(id),
            final(self).pending() == spec_route(old(self).pending(), id, value),
    {
        let mut one: Vec<T> = Vec::new();
        one.push(value);
        proof {
            if self.pending().contains_key(id) {
                assert(self.pending()[id] + one@ =~= self.pending()[id].push(value));
            }
        }
        self.route_all(id, one)
    }

    /// Hands `values`, in their order, to the pending entry of `id`. Values
    /// for an id that is not pending are dropped, and nothing changes.
    pub fn route_all(&mut self, id: u32, values: Vec<T>) -> (delivered: bool)
        requires
            old(self).wf(),
        ensures
            final(self).wf(),
            final(self).next_id() == old(self).next_id(),
            delivered == old(self).pending().contains_key(id),
            final(self).pending() == spec_route_all(old(self).pending(), id, values@),
    {
        let mut values = values;
        let ghost arrived = values@;
        let ghost before = *self;
        match self.find(id) {
            None => {
                assert(self.pending() =~= before.pending());
                false
            },
            Some(i) => {
                let mut entry = self.entries.remove(i);
                entry.results.append(&mut values);
                self.entries.insert(i, entry);
                proof {
                    let n = before.entries@.len() as int;
                    assert(self.entries@.len() == n);
                    assert(forall|j: int|
                        0 <= j < n ==> (#[trigger] self.entries@[j]).id == before.entries@[j].id);
                    assert(forall|j: int|
                        0 <= j < n && j != i ==> self.entries@[j] == before.entries@[j]);
                    assert(before.has(id, i as int));
                    assert(before.index_of(id) == i);
                    let want = before.pending().insert(id, before.pending()[id] + arrived);
                    assert forall|k: u32| #[trigger]
                        self.pending().contains_key(k) <==> want.contains_key(k) by {
                        if before.pending().contains_key(k) {
                            assert(self.has(k, before.index_of(k)));
                        }
                        if self.pending().contains_key(k) {
                            assert(before.has(k, self.index_of(k)));
                        }
                    }
                    assert forall|k: u32| #[trigger]
                        self.pending().contains_key(k) implies self.pending()[k] == want[k] by {
                        let a = self.index_of(k);
                        assert(self.has(k, a));
                        assert(before.has(k, a));
                        let b = before.index_of(k);
                        assert(before.has(k, b));
                        assert(a == b);
                    }
                    assert(self.pending() =~= want);
                }
                true
            },
        }
    }

    fn remove_entry(&mut self, id: u32) -> (r: Option<Vec<T>>)
        requires
            old(self).wf(),
        ensures
            final(self).wf(),
            final(self).next_id() == old(self).next_id(),
            final(self).pending() == old(self).pending().remove(id),
            match r {
                Some(results) => {
                    &&& old(self).pending().contains_key(id)
                    &&& results@ == old(self).pending()[id]
                },
                None => !old(self).pending().contains_key(id),
            },
    {
        let ghost before = *self;
        match self.find(id) {
            None => {
                assert(self.pending() =~= before.pending().remove(id));
                None
            },
            Some(i) => {
                let entry = self.entries.remove(i);
                proof {
                    let n = before.entries@.len() as int;
                    assert(before.has(id, i as int));
                    assert(before.index_of(id) == i);
                    assert(forall|j: int|
                        0 <= j < i ==> self.entries@[j] == before.entries@[j]);
                    assert(forall|j: int|
                        i <= j < n - 1 ==> self.entries@[j] == before.entries@[j + 1]);
                    let want = before.pending().remove(id);
                    assert forall|k: u32| #[trigger]
                        self.pending().contains_key(k) <==> want.contains_key(k) by {
                        if before.pending().contains_key(k) && k != id {
                            let b = before.index_of(k);
                            assert(before.has(k, b));
                            if b < i {
                                assert(self.has(k, b));
                            } else {
                                assert(self.has(k, b - 1));
                            }
                        }
                        if self.pending().contains_key(k) {
                            let a = self.index_of(k);
                            assert(self.has(k, a));
                            if a < i {
                                assert(before.has(k, a));
                            } else {
                                assert(before.has(k, a + 1));
                            }
                        }
                    }
                    assert forall|k: u32| #[trigger]
                        self.pending().contains_key(k) implies self.pending()[k] == want[k] by {
                        let a = self.index_of(k);
                        assert(self.has(k, a));
                        let b = before.index_of(k);
                        if a < i {
                            assert(before.has(k, a));
                            assert(before.has(k, b));
                            assert(a == b);
                        } else {
                            assert(before.has(k, a + 1));
                            assert(before.has(k, b));
                            assert(a + 1 == b);
                        }
                    }
                    assert(self.pending() =~= want);
                }
                Some(entry.results)
            },
        }
    }

    /// Ends the request `id` and hands out the results it has got. Later
    /// frames for `id` are dropped.
    pub fn complete(&mut self, id: u32) -> (r: Option<Vec<T>>)
        requires
            old(self).wf(),
        ensures
            final(self).wf(),
            final(self).next_id() == old(self).next_id(),
            final(self).pending() == old(self).pending().remove(id),
            match r {
                Some(results) => {
                    &&& old(self).pending().contains_key(id)
                    &&& results@ == old(self).pending()[id]
                },
                None => !old(self).pending().contains_key(id),
            },
    {
        self.remove_entry(id)
    }

    /// Cancels the request `id`: its entry goes, every other entry stays as
    /// it is. Says whether `id` was pending.
    pub fn cancel(&mut self, id: u32) -> (was_pending: bool)
        requires
            old(self).wf(),
        ensures
            final(self).wf(),
            final(self).next_id() == old(self).next_id(),
            was_pending == old(self).pending().contains_key(id),
            final(self).pending() == old(self).pending().remove(id),
    {
        self.remove_entry(id).is_some()
    }

    /// Fails every pending request with `Disconnected`: one notice per
    /// pending id, in the order of the ids, and nothing is pending
    /// afterwards.
    pub fn fail_all(&mut self) -> (failed: Vec<Failure>)
        requires
            old(self).wf(),
        ensures
            final(self).wf(),
            final(self).next_id() == old(self).next_id(),
            final(self).pending() == Map::<u32, Seq<T>>::empty(),
            spec_fails_all(old(self).pending().dom(), failed@),
    {
        let mut failed: Vec<Failure> = Vec::new();
        let mut i: usize = 0;
        while i < self.entries.len()
            invariant
                i <= self.entries@.len(),
                failed@.len() == i,
                forall|j: int|
                    0 <= j < i ==> (#[trigger] failed@[j]).error == ChannelError::Disconnected
                        && failed@[j].id == self.entries@[j].id,
            decreases self.entries@.len() - i,
        {
            failed.push(Failure { id: self.entries[i].id, error: ChannelError::Disconnected });
            i += 1;
        }
        proof {
            assert forall|j: int| 0 <= j < failed@.len() implies old(self).pending().contains_key(
                (#[trigger] failed@[j]).id,
            ) by {
                assert(self.has(failed@[j].id, j));
            }
            assert forall|id: u32| old(self).pending().contains_key(id) implies exists|j: int|
                0 <= j < failed@.len() && (#[trigger] failed@[j]).id == id by {
                let j = self.index_of(id);
                assert(self.has(id, j));
                assert(failed@[j].id == id);
            }
        }
        self.entries = Vec::new();
        assert(self.pending() =~= Map::<u32, Seq<T>>::empty());
        failed
    }

    /// The read loop could not read: whatever the reason, the channel is
    /// gone, the loop ends and all that is pending fails with `Disconnected`.
    pub fn on_read_error(&mut self) -> (r: LoopControl)
        requires
            old(self).wf(),
        ensures
            final(self).wf(),
            final(self).next_id() == old(self).next_id(),
            final(self).pending() == Map::<u32, Seq<T>>::empty(),
            r is Stop,
            spec_fails_all(old(self).pending().dom(), r->failed@),
    {
        LoopControl::Stop { failed: self.fail_all() }
    }

    /// One step of the read loop: acts on what the protocol made of a frame.
    /// A routed value goes to its pending entry, or is dropped where there is
    /// none. `Reconnect` and `Shutdown` end the loop and fail all that is
    /// pending.
    pub fn dispatch(&mut self, classified: Classified<T>) -> (r: LoopControl)
        requires
            old(self).wf(),
        ensures
            final(self).wf(),
            final(self).next_id() == old(self).next_id(),
            match classified {
                Classified::Route { id, value } => {
                    &&& r == LoopControl::Continue
                    &&& final(self).pending() == spec_route(old(self).pending(), id, value)
                },
                Classified::Continue => {
                    &&& r == LoopControl::Continue
                    &&& final(self).pending() == old(self).pending()
                },
                _ => {
                    &&& r is Stop
                    &&& final(self).pending() == Map::<u32, Seq<T>>::empty()
                    &&& spec_fails_all(old(self).pending().dom(), r->failed@)
                },
            },
    {
        match classified {
            Classified::Route { id, value } => {
                self.route(id, value);
                LoopControl::Continue
            },
            Classified::Continue => LoopControl::Continue,
            _ => LoopControl::Stop { failed: self.fail_all() },
        }
    }

    /// Allocates the next id, frames `type_code` with a body made of the id
    /// and `payload`, and registers the request as pending. Where the frame
    /// would be too long, no id is used up and nothing is registered.
    pub fn issue_request(&mut self, type_code: u16, payload: &[u8]) -> (r: Result<
        (u32, Vec<u8>),
        EncodeError,
    >)
        requires
            old(self).wf(),
            old(self).next_id() < u32::MAX,
        ensures
            final(self).wf(),
            payload@.len() + 8 <= 0xffff ==> ({
                &&& r is Ok
                &&& r->Ok_0.0 == old(self).next_id()
                &&& r->Ok_0.1@ == spec_frame(
                    type_code,
                    spec_u32_bytes(old(self).next_id()) + payload@,
                )
                &&& final(self).next_id() == old(self).next_id() + 1
                &&& final(self).pending() == old(self).pending().insert(
                    old(self).next_id(),
                    Seq::<T>::empty(),
                )
            }),
            payload@.len() + 8 > 0xffff ==> ({
                &&& r == Err::<(u32, Vec<u8>), EncodeError>(EncodeError::TooLong)
                &&& final(self).next_id() == old(self).next_id()
                &&& final(self).pending() == old(self).pending()
            }),
    {
        if payload.len() > 0xffff - 8 {
            return Err(EncodeError::TooLong);
        }
        let mut body = u32_to_be(self.next_id);
        append(&mut body, payload);
        match encode(type_code, body.as_slice()) {
            Err(e) => Err(e),
            Ok(frame) => {
                let id = self.register();
                Ok((id, frame))
            },
        }
    }
}

/// The pending table after `values` for `id` have arrived: they are added, in
/// their order, to the results of `id` where `id` is pending, and dropped
/// where it is not.
pub open spec fn spec_route_all<T>(pending: Map<u32, Seq<T>>, id: u32, values: Seq<T>) -> Map<
    u32,
    Seq<T>,
> {
    if pending.contains_key(id) {
        pending.insert(id, pending[id] + values)
    } else {
        pending
    }
}

/// The pending table after a value for `id` has arrived: the value is added
/// to the results of `id` where `id` is pending, and dropped where it is not.
pub open spec fn spec_route<T>(pending: Map<u32, Seq<T>>, id: u32, value: T) -> Map<u32, Seq<T>> {
    if pending.contains_key(id) {
        pending.insert(id, pending[id].push(value))
    } else {
        pending
    }
}

/// A reply tagged with one id leaves every other id as it was: pending or
/// not, and with the same results.
pub proof fn lemma_route_touches_one_id<T>(pending: Map<u32, Seq<T>>, a: u32, b: u32, value: T)
    requires
        a != b,
    ensures
        spec_route(pending, b, value).contains_key(a) == pending.contains_key(a),
        pending.contains_key(a) ==> spec_route(pending, b, value)[a] == pending[a],
        spec_route(pending, b, value).dom() == pending.dom(),
{
    assert(spec_route(pending, b, value).dom() =~= pending.dom());
}

/// With two requests issued one after the other, a reply to the second
/// reaches the second alone: the first stays pending with no result.
pub proof fn lemma_reply_reaches_its_request<T>(pending: Map<u32, Seq<T>>, a: u32, b: u32, value: T)
    requires
        a != b,
    ensures
        ({
            let issued = pending.insert(a, Seq::<T>::empty()).insert(b, Seq::<T>::empty());
            let after = spec_route(issued, b, value);
            &&& after.contains_key(a)
            &&& after[a] == Seq::<T>::empty()
            &&& after[b] == seq![value]
        }),
{
    let issued = pending.insert(a, Seq::<T>::empty()).insert(b, Seq::<T>::empty());
    assert(Seq::<T>::empty().push(value) =~= seq![value]);
}

/// The frame of an issued request decodes to its type code and body, and the
/// body starts with the id of the request.
pub proof fn lemma_issued_frame_carries_id(type_code: u16, id: u32, payload: Seq<u8>)
    requires
        payload.len() + 8 <= 0xffff,
    ensures
        spec_decode(spec_frame(type_code, spec_u32_bytes(id) + payload)) == Ok::<
            (u16, Seq<u8>),
            DecodeError,
        >((type_code, spec_u32_bytes(id) + payload)),
        spec_embedded_id(spec_u32_bytes(id) + payload) == Some(id),
{
    let body = spec_u32_bytes(id) + payload;
    lemma_frame_round_trip(type_code, body);
    lemma_u32_bytes_round_trip(id);
    assert(body[0] == spec_u32_bytes(id)[0] && body[1] == spec_u32_bytes(id)[1] && body[2]
        == spec_u32_bytes(id)[2] && body[3] == spec_u32_bytes(id)[3]);
}

/// Replies to two different requests may arrive in either order: each
/// request ends up with the same results.
pub proof fn lemma_arrival_order_across_ids<T>(
    pending: Map<u32, Seq<T>>,
    a: u32,
    for_a: Seq<T>,
    b: u32,
    for_b: Seq<T>,
)
    requires
        a != b,
    ensures
        spec_route_all(spec_route_all(pending, a, for_a), b, for_b) == spec_route_all(
            spec_route_all(pending, b, for_b),
            a,
            for_a,
        ),
{
    assert(spec_route_all(spec_route_all(pending, a, for_a), b, for_b) =~= spec_route_all(
        spec_route_all(pending, b, for_b),
        a,
        for_a,
    ));
}

/// A reply that arrives after its request was cancelled changes nothing.
pub proof fn lemma_late_reply_is_dropped<T>(pending: Map<u32, Seq<T>>, id: u32, value: T)
    ensures
        spec_route(pending.remove(id), id, value) == pending.remove(id),
{
}

/// `failed` holds one `Disconnected` notice for each id of `ids`, and no
/// other, in the order of the ids.
pub open spec fn spec_fails_all(ids: Set<u32>, failed: Seq<Failure>) -> bool {
    &&& forall|i: int|
        0 <= i < failed.len() ==> (#[trigger] failed[i]).error == ChannelError::Disconnected
            && ids.contains(failed[i].id)
    &&& forall|i: int, j: int| 0 <= i < j < failed.len() ==> failed[i].id < failed[j].id
    &&& forall|id: u32|
        ids.contains(id) ==> exists|i: int| 0 <= i < failed.len() && (#[trigger] failed[i]).id == id
}

} // verus!
