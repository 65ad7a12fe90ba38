//! The GNS lookup protocol: batches of correlated lookups on one channel.
//!
//! A batch is validated as a whole, then every query becomes one `LOOKUP`
//! frame with an id of its own. Result frames may come back in any order;
//! their records are gathered per id, and a finished batch hands them out in
//! the order of the queries.

use vstd::prelude::*;
use vstd::pervasive::unreached;
use vstd::utf8::encode_utf8;
use crate::bytes::{append, spec_be_u32, spec_u16_bytes, spec_u32_bytes, u16_to_be, u32_to_be};
use crate::bytes::read_u32_be;
use crate::codec::spec_frame;
use crate::correlator::{
    spec_embedded_id, spec_fails_all, spec_route_all, Correlator, Failure,
};
use crate::identity::Ego;
use crate::keys::{EcdsaPrivateKey, EcdsaPublicKey};
use crate::record::{spec_records, spec_views, Record, RecordView};

verus! {

/// Type code of a lookup request.
pub const MESSAGE_TYPE_GNS_LOOKUP: u16 = 500;

/// Type code of a lookup result.
pub const MESSAGE_TYPE_GNS_LOOKUP_RESULT: u16 = 501;

/// The longest name, in bytes, that can be looked up.
pub const MAX_NAME_LENGTH: usize = 253;

/// Options for GNS lookups.
#[derive(Copy, Clone, Debug, PartialEq, Eq)]
pub enum LocalOptions {
    /// Default behaviour. Look in the local cache, then in the DHT.
    Default,
    /// Do not look in the DHT, keep the request to the local cache.
    NoDHT,
    /// For domains controlled by our master zone only look in the cache.
    /// Otherwise look in the cache, then in the DHT.
    LocalMaster,
}

impl LocalOptions {
    /// The number that stands for the option on the wire.
    pub open spec fn spec_code(self) -> u16 {
        match self {
            LocalOptions::Default => 0,
            LocalOptions::NoDHT => 1,
            LocalOptions::LocalMaster => 2,
        }
    }

    /// The number that stands for the option on the wire.
    pub fn code(self) -> (c: u16)
        ensures
            c == self.spec_code(),
    {
        match self {
            LocalOptions::Default => 0,
            LocalOptions::NoDHT => 1,
            LocalOptions::LocalMaster => 2,
        }
    }
}

/// One name to look up.
#[derive(Clone, Debug, PartialEq, Eq)]
pub struct LookupQuery {
    /// The name to resolve.
    pub name: String,
    /// The zone to start in.
    pub zone: EcdsaPublicKey,
    /// The type of record asked for.
    pub record_type: u32,
    /// Where the service may look.
    pub options: LocalOptions,
    /// The zone to shorten the result into, if any.
    pub shorten: Option<EcdsaPrivateKey>,
}

/// Possible errors of the GNS lookup functions.
#[derive(Clone, Debug, PartialEq, Eq)]
pub enum LookupError {
    /// A frame of another type came where a lookup result was expected.
    InvalidType { tpe: u16 },
    /// The name of the query at `index` is too long to look up.
    NameTooLong { index: usize, name: String },
    /// A lookup result ended before its declared content did.
    Truncated,
}

/// The records that one result frame carries for the request `id`.
#[derive(Clone, Debug, PartialEq, Eq)]
pub struct LookupResult {
    pub id: u32,
    pub records: Vec<Record>,
}

/// A batch of lookups that has been issued: the id of its first query and the
/// frames to send, one per query, in the order of the queries. Query `i` has
/// the id `first_id + i`.
#[derive(Clone, Debug, PartialEq, Eq)]
pub struct LookupBatch {
    pub first_id: u32,
    pub frames: Vec<Vec<u8>>,
}

/// Whether the name of `q` is too long to look up.
pub open spec fn spec_name_too_long(q: LookupQuery) -> bool {
    encode_utf8(q.name@).len() > 253
}

/// The body of the lookup request for `q`, after the id: the zone key, the
/// options and the shorten flag (16 bits each), the record type (32 bits),
/// the shorten key or 32 zero bytes, and the name with a closing zero byte.
pub open spec fn spec_lookup_payload(q: LookupQuery) -> Seq<u8> {
    q.zone.bytes@ + spec_u16_bytes(q.options.spec_code()) + spec_u16_bytes(
        if q.shorten is Some {
            1
        } else {
            0
        },
    ) + spec_u32_bytes(q.record_type) + (match q.shorten {
        Some(k) => k.bytes@,
        None => Seq::new(32, |i: int| 0u8),
    }) + encode_utf8(q.name@) + seq![0u8]
}

/// The frame that asks for `q` under the id `id`.
pub open spec fn spec_lookup_frame(id: u32, q: LookupQuery) -> Seq<u8> {
    spec_frame(MESSAGE_TYPE_GNS_LOOKUP, spec_u32_bytes(id) + spec_lookup_payload(q))
}

/// What a frame of type `type_code` with `body` holds as a lookup result: the
/// id and the records, or the reason why it is none.
pub open spec fn spec_lookup_result(type_code: u16, body: Seq<u8>) -> Result<
    (u32, Seq<RecordView>),
    LookupError,
> {
    if type_code != MESSAGE_TYPE_GNS_LOOKUP_RESULT {
        Err(LookupError::InvalidType { tpe: type_code })
    } else if body.len() < 8 {
        Err(LookupError::Truncated)
    } else {
        match spec_records(body, 8, spec_be_u32(body.subrange(4, 8)) as nat) {
            None => Err(LookupError::Truncated),
            Some(records) => Ok((spec_be_u32(body) as u32, records)),
        }
    }
}

/// A lookup result is for the id that its body starts with: the id by which
/// the frame is routed is the id under which its records are gathered.
pub proof fn lemma_result_is_routed_by_its_id(type_code: u16, body: Seq<u8>)
    requires
        spec_lookup_result(type_code, body) is Ok,
    ensures
        spec_embedded_id(body) == Some(spec_lookup_result(type_code, body)->Ok_0.0),
{
}

/// The gathered results after `count` requests were issued from `first` on:
/// each of their ids is there without a record, the rest is as before.
pub open spec fn spec_issued(
    results: Map<u32, Seq<RecordView>>,
    first: u32,
    count: int,
) -> Map<u32, Seq<RecordView>> {
    Map::new(
        |id: u32| results.contains_key(id) || first <= id < first + count,
        |id: u32|
            if results.contains_key(id) {
                results[id]
            } else {
                Seq::empty()
            },
    )
}

/// The gathered results without the `count` ids from `first` on.
pub open spec fn spec_without(
    results: Map<u32, Seq<RecordView>>,
    first: u32,
    count: int,
) -> Map<u32, Seq<RecordView>> {
    Map::new(
        |id: u32| results.contains_key(id) && !(first <= id < first + count),
        |id: u32| results[id],
    )
}

/// Whether each of the `count` ids from `first` on is awaited and has at
/// least one record.
pub open spec fn spec_batch_complete(
    results: Map<u32, Seq<RecordView>>,
    first: u32,
    count: int,
) -> bool {
    forall|k: int| 0 <= k < count ==> #[trigger] spec_answered(results, first, k)
}

/// Whether query `k` of a batch whose first id is `first` is awaited and has
/// at least one record.
pub open spec fn spec_answered(results: Map<u32, Seq<RecordView>>, first: u32, k: int) -> bool {
    &&& first + k <= u32::MAX
    &&& results.contains_key(spec_nth_id(first, k))
    &&& results[spec_nth_id(first, k)].len() > 0
}

/// The id of query `k` of a batch whose first id is `first`.
pub open spec fn spec_nth_id(first: u32, k: int) -> u32 {
    (first + k) as u32
}

/// The values of the record lists that are pending under each id.
pub open spec fn spec_view_map(pending: Map<u32, Seq<Record>>) -> Map<u32, Seq<RecordView>> {
    Map::new(|id: u32| pending.contains_key(id), |id: u32| spec_views(pending[id]))
}

/// Builds the body of the lookup request for `q`, after the id.
pub fn lookup_payload(q: &LookupQuery) -> (r: Vec<u8>)
    ensures
        r@ == spec_lookup_payload(*q),
{
    let mut out: Vec<u8> = Vec::new();
    append(&mut out, q.zone.bytes.as_slice());
    let options = u16_to_be(q.options.code());
    append(&mut out, options.as_slice());
    let have_key: u16 = if q.shorten.is_some() {
        1
    } else {
        0
    };
    let have_key = u16_to_be(have_key);
    append(&mut out, have_key.as_slice());
    let record_type = u32_to_be(q.record_type);
    append(&mut out, record_type.as_slice());
    let shorten = match q.shorten {
        Some(k) => k,
        None => EcdsaPrivateKey::zeros(),
    };
    append(&mut out, shorten.bytes.as_slice());
    append(&mut out, q.name.as_str().as_bytes());
    out.push(0u8);
    assert(out@ =~= spec_lookup_payload(*q));
    out
}

/// The options for a lookup of `name` in the master zone: a name of exactly
/// two labels that ends in `gnu` stays out of the DHT.
pub open spec fn spec_master_options(name: Seq<u8>) -> LocalOptions {
    if spec_is_gnu_name(name) {
        LocalOptions::NoDHT
    } else {
        LocalOptions::LocalMaster
    }
}

/// Whether `name` is one label, a dot and `gnu`.
pub open spec fn spec_is_gnu_name(name: Seq<u8>) -> bool {
    &&& name.len() >= 4
    &&& name.subrange(name.len() - 4, name.len() as int) == seq![0x2eu8, 0x67u8, 0x6eu8, 0x75u8]
    &&& forall|i: int| 0 <= i < name.len() - 4 ==> name[i] != 0x2eu8
}

/// Picks the options for a lookup of `name` in the master zone.
pub fn master_options(name: &str) -> (r: LocalOptions)
    ensures
        r == spec_master_options(encode_utf8(name@)),
{
    let bytes = name.as_bytes();
    let n = bytes.len();
    if n < 4 {
        return LocalOptions::LocalMaster;
    }
    if bytes[n - 4] != 0x2e || bytes[n - 3] != 0x67 || bytes[n - 2] != 0x6e || bytes[n - 1]
        != 0x75 {
        assert(bytes@.subrange(n - 4, n as int)[0] == bytes@[n - 4]);
        assert(bytes@.subrange(n - 4, n as int)[1] == bytes@[n - 3]);
        assert(bytes@.subrange(n - 4, n as int)[2] == bytes@[n - 2]);
        assert(bytes@.subrange(n - 4, n as int)[3] == bytes@[n - 1]);
        return LocalOptions::LocalMaster;
    }
    assert(bytes@.subrange(n - 4, n as int) =~= seq![0x2eu8, 0x67u8, 0x6eu8, 0x75u8]);
    let mut i: usize = 0;
    while i < n - 4
        invariant
            n == bytes@.len(),
            bytes@ == encode_utf8(name@),
            n >= 4,
            i <= n - 4,
            forall|j: int| 0 <= j < i ==> bytes@[j] != 0x2eu8,
        decreases n - i,
    {
        if bytes[i] == 0x2e {
            assert(encode_utf8(name@)[i as int] == 0x2eu8);
            return LocalOptions::LocalMaster;
        }
        i += 1;
    }
    LocalOptions::NoDHT
}

proof fn lemma_issued_step(
    before: Map<u32, Seq<RecordView>>,
    pending: Map<u32, Seq<Record>>,
    first: u32,
    k: int,
)
    requires
        0 <= k,
        first + k <= u32::MAX,
        spec_view_map(pending) == spec_issued(before, first, k),
        forall|id: u32| before.contains_key(id) ==> id < first,
    ensures
        spec_view_map(pending.insert(spec_nth_id(first, k), Seq::<Record>::empty())) == spec_issued(
            before,
            first,
            k + 1,
        ),
{
    let id = spec_nth_id(first, k);
    let a = spec_view_map(pending.insert(id, Seq::<Record>::empty()));
    let b = spec_issued(before, first, k + 1);
    assert(spec_views(Seq::<Record>::empty()) =~= Seq::<RecordView>::empty());
    assert forall|key: u32| a.contains_key(key) <==> b.contains_key(key) by {
        assert(spec_view_map(pending).contains_key(key) == pending.contains_key(key));
        assert(spec_issued(before, first, k).contains_key(key) == (before.contains_key(key)
            || first <= key < first + k));
    }
    assert forall|key: u32| a.contains_key(key) implies a[key] == b[key] by {
        if key != id {
            assert(spec_view_map(pending).contains_key(key));
            assert(spec_view_map(pending)[key] == spec_issued(before, first, k)[key]);
        }
    }
    assert(a =~= b);
}

proof fn lemma_without_step(
    before: Map<u32, Seq<RecordView>>,
    pending: Map<u32, Seq<Record>>,
    first: u32,
    k: int,
)
    requires
        0 <= k,
        first + k <= u32::MAX,
        spec_view_map(pending) == spec_without(before, first, k),
    ensures
        spec_view_map(pending.remove(spec_nth_id(first, k))) == spec_without(before, first, k + 1),
{
    let id = spec_nth_id(first, k);
    let a = spec_view_map(pending.remove(id));
    let b = spec_without(before, first, k + 1);
    assert forall|key: u32| a.contains_key(key) <==> b.contains_key(key) by {
        assert(spec_view_map(pending).contains_key(key) == pending.contains_key(key));
        assert(spec_without(before, first, k).contains_key(key) == (before.contains_key(key)
            && !(first <= key < first + k)));
    }
    assert forall|key: u32| a.contains_key(key) implies a[key] == b[key] by {
        assert(spec_view_map(pending).contains_key(key));
        assert(spec_view_map(pending)[key] == spec_without(before, first, k)[key]);
    }
    assert(a =~= b);
}

/// A handle on the GNS service of one channel: the ids given out so far and
/// the records gathered for the lookups that are still awaited.
pub struct GNS {
    correlator: Correlator<Record>,
}

impl GNS {
    /// The ids and the table of awaited lookups are consistent.
    pub closed spec fn wf(&self) -> bool {
        self.correlator.wf()
    }

    /// The id that the next lookup will get.
    pub closed spec fn lookup_id(&self) -> u32 {
        self.correlator.next_id()
    }

    /// The records gathered so far, per awaited id, in order of arrival.
    pub closed spec fn results(&self) -> Map<u32, Seq<RecordView>> {
        spec_view_map(self.correlator.pending())
    }

    /// The state of a freshly connected channel: ids start at 0 and no lookup
    /// is awaited.
    pub fn connect() -> (gns: GNS)
        ensures
            gns.wf(),
            gns.lookup_id() == 0,
            gns.results() == Map::<u32, Seq<RecordView>>::empty(),
    {
        let gns = GNS { correlator: Correlator::new() };
        assert(gns.results() =~= Map::<u32, Seq<RecordView>>::empty());
        gns
    }

    /// The id that the next lookup will get.
    pub fn next_lookup_id(&self) -> (id: u32)
        ensures
            id == self.lookup_id(),
    {
        self.correlator.peek_next_id()
    }

    /// Issues one lookup per query. Every name is tested before anything
    /// else happens: one name that is too long fails the whole batch, with
    /// the first such query named, no id used and no frame made. Otherwise
    /// query `i` gets the id `first_id + i` and the frame `frames[i]`.
    pub fn lookup(&mut self, queries: &Vec<LookupQuery>) -> (r: Result<LookupBatch, LookupError>)
        requires
            old(self).wf(),
            old(self).lookup_id() + queries@.len() <= u32::MAX,
        ensures
            final(self).wf(),
            (exists|i: int| 0 <= i < queries@.len() && spec_name_too_long(queries@[i])) ==> ({
                &&& final(self).lookup_id() == old(self).lookup_id()
                &&& final(self).results() == old(self).results()
                &&& match r {
                    Err(LookupError::NameTooLong { index, name }) => {
                        &&& index < queries@.len()
                        &&& spec_name_too_long(queries@[index as int])
                        &&& name == queries@[index as int].name
                        &&& forall|j: int| 0 <= j < index ==> !spec_name_too_long(queries@[j])
                    },
                    _ => false,
                }
            }),
            (forall|i: int| 0 <= i < queries@.len() ==> !spec_name_too_long(queries@[i])) ==> ({
                &&& final(self).lookup_id() == old(self).lookup_id() + queries@.len()
                &&& match r {
                    Ok(batch) => {
                        &&& batch.first_id == old(self).lookup_id()
                        &&& batch.frames@.len() == queries@.len()
                        &&& final(self).results() == spec_issued(
                            old(self).results(),
                            batch.first_id,
                            queries@.len() as int,
                        )
                        &&& forall|i: int|
                            0 <= i < queries@.len() ==> (#[trigger] batch.frames@[i])@
                                == spec_lookup_frame(
                                spec_nth_id(batch.first_id, i),
                                queries@[i],
                            )
                    },
                    Err(_) => false,
                }
            }),
    {
        let count = queries.len();
        let mut i: usize = 0;
        while i < count
            invariant
                count == queries@.len(),
                i <= count,
                *self == *old(self),
                self.wf(),
                forall|j: int| 0 <= j < i ==> !spec_name_too_long(queries@[j]),
            decreases count - i,
        {
            if queries[i].name.as_str().as_bytes().len() > MAX_NAME_LENGTH {
                return Err(LookupError::NameTooLong { index: i, name: queries[i].name.clone() });
            }
            i += 1;
        }
        let first_id = self.correlator.peek_next_id();
        let ghost before = self.correlator.pending();
        let mut frames: Vec<Vec<u8>> = Vec::new();
        let mut k: usize = 0;
        assert forall|id: u32| before.contains_key(id) implies id < first_id by {
            self.correlator.lemma_pending_below_next(id);
        }
        assert(self.results() =~= spec_issued(spec_view_map(before), first_id, 0));
        while k < count
            invariant
                count == queries@.len(),
                k <= count,
                first_id + count <= u32::MAX,
                self.correlator.wf(),
                self.correlator.next_id() == first_id + k,
                forall|j: int| 0 <= j < count ==> !spec_name_too_long(queries@[j]),
                frames@.len() == k,
                forall|j: int|
                    0 <= j < k ==> (#[trigger] frames@[j])@ == spec_lookup_frame(
                        spec_nth_id(first_id, j),
                        queries@[j],
                    ),
                forall|id: u32| before.contains_key(id) ==> id < first_id,
                spec_view_map(self.correlator.pending()) == spec_issued(
                    spec_view_map(before),
                    first_id,
                    k as int,
                ),
            decreases count - k,
        {
            let payload = lookup_payload(&queries[k]);
            assert(payload@.len() == 73 + encode_utf8(queries@[k as int].name@).len());
            let ghost pending = self.correlator.pending();
            match self.correlator.issue_request(MESSAGE_TYPE_GNS_LOOKUP, payload.as_slice()) {
                Ok((id, frame)) => {
                    frames.push(frame);
                    proof {
                        lemma_issued_step(spec_view_map(before), pending, first_id, k as int);
                    }
                },
                Err(_) => unreached(),
            }
            k += 1;
        }
        Ok(LookupBatch { first_id, frames })
    }

    /// Decodes one frame as a lookup result: the id it is for and the records
    /// it carries. A frame of another type is `InvalidType`; a body that ends
    /// before its records do is `Truncated`.
    pub fn parse_lookup_result(type_code: u16, body: &[u8]) -> (r: Result<
        LookupResult,
        LookupError,
    >)
        ensures
            match spec_lookup_result(type_code, body@) {
                Ok((id, records)) => r is Ok && r->Ok_0.id == id && spec_views(r->Ok_0.records@)
                    == records,
                Err(e) => r == Err::<LookupResult, LookupError>(e),
            },
    {
        if type_code != MESSAGE_TYPE_GNS_LOOKUP_RESULT {
            return Err(LookupError::InvalidType { tpe: type_code });
        }
        if body.len() < 8 {
            return Err(LookupError::Truncated);
        }
        let id = read_u32_be(body);
        let count = read_u32_be(vstd::slice::slice_subrange(body, 4, 8));
        match Record::deserialize_all(body, 8, count) {
            None => Err(LookupError::Truncated),
            Some(records) => Ok(LookupResult { id, records }),
        }
    }

    /// Whether every query of `batch` has at least one record.
    pub fn is_complete(&self, batch: &LookupBatch) -> (r: bool)
        requires
            self.wf(),
        ensures
            r == spec_batch_complete(self.results(), batch.first_id, batch.frames@.len() as int),
    {
        let count = batch.frames.len();
        let mut k: usize = 0;
        let mut complete = true;
        while complete && k < count
            invariant
                count == batch.frames@.len(),
                k <= count,
                self.wf(),
                !complete ==> !spec_batch_complete(self.results(), batch.first_id, count as int),
                forall|j: int|
                    0 <= j < k ==> #[trigger] spec_answered(self.results(), batch.first_id, j),
            decreases count - k + (if complete { 1int } else { 0int }),
        {
            let ghost id = spec_nth_id(batch.first_id, k as int);
            if k > (u32::MAX - batch.first_id) as usize {
                assert(!spec_answered(self.results(), batch.first_id, k as int));
                complete = false;
            } else {
                match self.correlator.result_count(batch.first_id + k as u32) {
                    None => {
                        assert(!spec_answered(self.results(), batch.first_id, k as int));
                        complete = false;
                    },
                    Some(n) => {
                        assert(self.correlator.pending().contains_key(id));
                        assert(self.results().contains_key(id));
                        assert(self.results()[id] == spec_views(self.correlator.pending()[id]));
                        assert(self.results()[id].len() == n);
                        if n == 0 {
                            assert(!spec_answered(self.results(), batch.first_id, k as int));
                            complete = false;
                        } else {
                            assert(spec_answered(self.results(), batch.first_id, k as int));
                            k += 1;
                        }
                    },
                }
            }
        }
        complete
    }

    /// One step of a lookup: takes the next frame that was read, adds the
    /// records it carries to those of its id, and says whether `batch` is
    /// complete now. Records for an id that is not awaited are dropped. A
    /// frame that is no lookup result changes nothing.
    pub fn lookup_loop(&mut self, batch: &LookupBatch, type_code: u16, body: &[u8]) -> (r: Result<
        bool,
        LookupError,
    >)
        requires
            old(self).wf(),
        ensures
            final(self).wf(),
            final(self).lookup_id() == old(self).lookup_id(),
            match spec_lookup_result(type_code, body@) {
                Ok((id, records)) => final(self).results() == spec_route_all(
                    old(self).results(),
                    id,
                    records,
                ) && r == Ok::<bool, LookupError>(
                    spec_batch_complete(
                        final(self).results(),
                        batch.first_id,
                        batch.frames@.len() as int,
                    ),
                ),
                Err(e) => final(self).results() == old(self).results() && r == Err::<
                    bool,
                    LookupError,
                >(e),
            },
    {
        match GNS::parse_lookup_result(type_code, body) {
            Err(e) => Err(e),
            Ok(result) => {
                let ghost pending = self.correlator.pending();
                let ghost arrived = result.records@;
                self.correlator.route_all(result.id, result.records);
                proof {
                    if pending.contains_key(result.id) {
                        assert(spec_views(pending[result.id] + arrived) =~= spec_views(
                            pending[result.id],
                        ) + spec_views(arrived));
                    }
                    assert(self.results() =~= spec_route_all(
                        spec_view_map(pending),
                        result.id,
                        spec_views(arrived),
                    ));
                }
                Ok(self.is_complete(batch))
            },
        }
    }

    /// Ends a complete batch and hands out its records, one list per query,
    /// in the order of the queries. The ids of the batch are awaited no
    /// longer: later frames for them are dropped. A batch that is not
    /// complete stays as it is, and `None` is returned.
    pub fn finish(&mut self, batch: &LookupBatch) -> (r: Option<Vec<Vec<Record>>>)
        requires
            old(self).wf(),
        ensures
            final(self).wf(),
            final(self).lookup_id() == old(self).lookup_id(),
            match r {
                Some(lists) => {
                    &&& spec_batch_complete(
                        old(self).results(),
                        batch.first_id,
                        batch.frames@.len() as int,
                    )
                    &&& lists@.len() == batch.frames@.len()
                    &&& final(self).results() == spec_without(
                        old(self).results(),
                        batch.first_id,
                        batch.frames@.len() as int,
                    )
                    &&& forall|i: int|
                        0 <= i < lists@.len() ==> spec_views((#[trigger] lists@[i])@)
                            == old(self).results()[spec_nth_id(batch.first_id, i)]
                },
                None => {
                    &&& !spec_batch_complete(
                        old(self).results(),
                        batch.first_id,
                        batch.frames@.len() as int,
                    )
                    &&& final(self).results() == old(self).results()
                },
            },
    {
        if !self.is_complete(batch) {
            return None;
        }
        let count = batch.frames.len();
        let ghost before = self.correlator.pending();
        let mut lists: Vec<Vec<Record>> = Vec::new();
        let mut k: usize = 0;
        assert(spec_view_map(before) =~= spec_without(spec_view_map(before), batch.first_id, 0));
        while k < count
            invariant
                count == batch.frames@.len(),
                k <= count,
                self.correlator.wf(),
                self.correlator.next_id() == old(self).correlator.next_id(),
                spec_batch_complete(spec_view_map(before), batch.first_id, count as int),
                spec_view_map(self.correlator.pending()) == spec_without(
                    spec_view_map(before),
                    batch.first_id,
                    k as int,
                ),
                lists@.len() == k,
                forall|j: int|
                    0 <= j < k ==> spec_views((#[trigger] lists@[j])@) == spec_view_map(
                        before,
                    )[spec_nth_id(batch.first_id, j)],
            decreases count - k,
        {
            let ghost id = spec_nth_id(batch.first_id, k as int);
            let ghost pending = self.correlator.pending();
            assert(spec_answered(spec_view_map(before), batch.first_id, k as int));
            assert(spec_view_map(pending).contains_key(id));
            assert(spec_view_map(pending)[id] == spec_view_map(before)[id]);
            match self.correlator.complete(batch.first_id + k as u32) {
                Some(records) => {
                    lists.push(records);
                },
                None => unreached(),
            }
            proof {
                lemma_without_step(spec_view_map(before), pending, batch.first_id, k as int);
            }
            k += 1;
        }
        Some(lists)
    }

    /// Gives up on `batch`: none of its ids is awaited any longer, and frames
    /// that still come for them are dropped. Other lookups are not touched.
    pub fn cancel(&mut self, batch: &LookupBatch)
        requires
            old(self).wf(),
        ensures
            final(self).wf(),
            final(self).lookup_id() == old(self).lookup_id(),
            final(self).results() == spec_without(
                old(self).results(),
                batch.first_id,
                batch.frames@.len() as int,
            ),
    {
        let count = batch.frames.len();
        let ghost before = self.correlator.pending();
        let mut k: usize = 0;
        assert(spec_view_map(before) =~= spec_without(spec_view_map(before), batch.first_id, 0));
        while k < count && k <= (u32::MAX - batch.first_id) as usize
            invariant
                count == batch.frames@.len(),
                k <= count,
                self.correlator.wf(),
                self.correlator.next_id() == old(self).correlator.next_id(),
                spec_view_map(self.correlator.pending()) == spec_without(
                    spec_view_map(before),
                    batch.first_id,
                    k as int,
                ),
            decreases count - k,
        {
            let ghost pending = self.correlator.pending();
            let ghost id = spec_nth_id(batch.first_id, k as int);
            self.correlator.cancel(batch.first_id + k as u32);
            proof {
                lemma_without_step(spec_view_map(before), pending, batch.first_id, k as int);
            }
            k += 1;
        }
        assert(spec_without(spec_view_map(before), batch.first_id, k as int) =~= spec_without(
            spec_view_map(before),
            batch.first_id,
            count as int,
        ));
    }

    /// The channel is gone: every awaited lookup fails with `Disconnected`,
    /// and nothing is awaited afterwards.
    pub fn disconnect(&mut self) -> (failed: Vec<Failure>)
        requires
            old(self).wf(),
        ensures
            final(self).wf(),
            final(self).lookup_id() == old(self).lookup_id(),
            final(self).results() == Map::<u32, Seq<RecordView>>::empty(),
            spec_fails_all(old(self).results().dom(), failed@),
    {
        let ghost pending = self.correlator.pending();
        let failed = self.correlator.fail_all();
        assert(spec_view_map(pending).dom() =~= pending.dom());
        assert(self.results() =~= Map::<u32, Seq<RecordView>>::empty());
        failed
    }
}

/// Issues the lookup of one name on `gns`: a batch of one query.
pub fn lookup(
    gns: &mut GNS,
    name: String,
    zone: EcdsaPublicKey,
    record_type: u32,
    options: LocalOptions,
    shorten: Option<EcdsaPrivateKey>,
) -> (r: Result<LookupBatch, LookupError>)
    requires
        old(gns).wf(),
        old(gns).lookup_id() < u32::MAX,
    ensures
        final(gns).wf(),
        encode_utf8(name@).len() > 253 ==> ({
            &&& r == Err::<LookupBatch, LookupError>(LookupError::NameTooLong { index: 0, name })
            &&& final(gns).lookup_id() == old(gns).lookup_id()
            &&& final(gns).results() == old(gns).results()
        }),
        encode_utf8(name@).len() <= 253 ==> final(gns).lookup_id() == old(gns).lookup_id() + 1
            && (match r {
            Ok(batch) => batch.first_id == old(gns).lookup_id() && batch.frames@.len() == 1
                && batch.frames@[0]@ == spec_lookup_frame(
                batch.first_id,
                LookupQuery { name, zone, record_type, options, shorten },
            ) && final(gns).results() == spec_issued(old(gns).results(), batch.first_id, 1),
            Err(_) => false,
        }),
{
    let mut queries: Vec<LookupQuery> = Vec::new();
    queries.push(LookupQuery { name, zone, record_type, options, shorten });
    assert(spec_name_too_long(queries@[0]) == (encode_utf8(name@).len() > 253));
    let r = gns.lookup(&queries);
    proof {
        if r is Ok {
            assert(spec_nth_id(r->Ok_0.first_id, 0) == r->Ok_0.first_id);
        }
    }
    r
}

/// Issues the lookup of one name in the master zone, the zone of `ego`. The
/// options follow from the name.
pub fn lookup_in_master(
    gns: &mut GNS,
    ego: &Ego,
    name: String,
    record_type: u32,
    shorten: Option<EcdsaPrivateKey>,
) -> (r: Result<LookupBatch, LookupError>)
    requires
        old(gns).wf(),
        old(gns).lookup_id() < u32::MAX,
    ensures
        final(gns).wf(),
        encode_utf8(name@).len() > 253 ==> ({
            &&& r == Err::<LookupBatch, LookupError>(LookupError::NameTooLong { index: 0, name })
            &&& final(gns).lookup_id() == old(gns).lookup_id()
            &&& final(gns).results() == old(gns).results()
        }),
        encode_utf8(name@).len() <= 253 ==> final(gns).lookup_id() == old(gns).lookup_id() + 1
            && (match r {
            Ok(batch) => batch.first_id == old(gns).lookup_id() && batch.frames@.len() == 1
                && batch.frames@[0]@ == spec_lookup_frame(
                batch.first_id,
                LookupQuery {
                    name,
                    zone: ego.spec_public_key(),
                    record_type,
                    options: spec_master_options(encode_utf8(name@)),
                    shorten,
                },
            ) && final(gns).results() == spec_issued(old(gns).results(), batch.first_id, 1),
            Err(_) => false,
        }),
{
    let options = master_options(name.as_str());
    lookup(gns, name, ego.get_public_key(), record_type, options, shorten)
}

/// The one record that a lookup of a single name is after: the last record
/// of the last list, if there is one.
pub fn single_record(lists: Vec<Vec<Record>>) -> (r: Option<Record>)
    ensures
        r == (if lists@.len() > 0 && lists@.last()@.len() > 0 {
            Some(lists@.last()@.last())
        } else {
            None
        }),
{
    let mut lists = lists;
    match lists.pop() {
        None => None,
        Some(mut last) => last.pop(),
    }
}

} // verus!
