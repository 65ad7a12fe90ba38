//! The identity protocol: the mirror of egos that is filled when a channel
//! opens, and the query for the default ego of a service.
//!
//! Keys are never derived here. Where the protocol needs the public key of a
//! private key, or its hash, the caller computes them and hands them in.

use vstd::prelude::*;
use vstd::slice::slice_subrange;
use vstd::string::StringExecFns;
use vstd::utf8::{encode_utf8, valid_utf8};
use crate::bytes::{
    append, copy_range, find_nul, read_u16_be, same_bytes, spec_be_u16, spec_find_nul,
    spec_u16_bytes, to_u16, u16_to_be,
};
use crate::codec::{encode, spec_frame};
use crate::keys::{EcdsaPrivateKey, EcdsaPublicKey, HashCode};

verus! {

/// Type code of the frame that starts the handshake.
pub const MESSAGE_TYPE_IDENTITY_START: u16 = 624;

/// Type code of a result code, with a message.
pub const MESSAGE_TYPE_IDENTITY_RESULT_CODE: u16 = 625;

/// Type code of an update: one ego, or the end of the list.
pub const MESSAGE_TYPE_IDENTITY_UPDATE: u16 = 626;

/// Type code of the query for the default ego of a service.
pub const MESSAGE_TYPE_IDENTITY_GET_DEFAULT: u16 = 627;

/// Type code of the answer that names a default ego.
pub const MESSAGE_TYPE_IDENTITY_SET_DEFAULT: u16 = 628;

/// `String::from_utf8`: the string that `bytes` spell, where they are valid
/// UTF-8, and nothing where they are not.
#[verifier::external_body]
pub(crate) fn string_from_utf8(bytes: Vec<u8>) -> (r: Option<String>)
    ensures
        r is Some <==> valid_utf8(bytes@),
        r is Some ==> encode_utf8(r->Some_0@) == bytes@,
{
    match String::from_utf8(bytes) {
        Ok(s) => Some(s),
        Err(_) => None,
    }
}

/// A GNUnet identity.
///
/// An ego consists of a public/private key pair and a name. Its id is the
/// hash of its public key.
#[derive(Clone, Debug, PartialEq, Eq)]
pub struct Ego {
    pk: EcdsaPrivateKey,
    public: EcdsaPublicKey,
    name: Option<String>,
    id: HashCode,
}

impl Ego {
    /// The private key of the ego.
    pub closed spec fn spec_private_key(&self) -> EcdsaPrivateKey {
        self.pk
    }

    /// The public key of the ego.
    pub closed spec fn spec_public_key(&self) -> EcdsaPublicKey {
        self.public
    }

    /// The name of the ego.
    pub closed spec fn spec_name(&self) -> Option<String> {
        self.name
    }

    /// The id of the ego.
    pub closed spec fn spec_id(&self) -> HashCode {
        self.id
    }

    /// An ego made of a private key, the public key derived from it, a name
    /// and the hash of the public key.
    pub fn new(
        private_key: EcdsaPrivateKey,
        public_key: EcdsaPublicKey,
        name: Option<String>,
        id: HashCode,
    ) -> (ego: Ego)
        ensures
            ego.spec_private_key() == private_key,
            ego.spec_public_key() == public_key,
            ego.spec_name() == name,
            ego.spec_id() == id,
    {
        Ego { pk: private_key, public: public_key, name, id }
    }

    /// The global, anonymous ego: the well-known anonymous key pair and its
    /// id, without a name.
    pub fn anonymous(
        private_key: EcdsaPrivateKey,
        public_key: EcdsaPublicKey,
        id: HashCode,
    ) -> (ego: Ego)
        ensures
            ego.spec_private_key() == private_key,
            ego.spec_public_key() == public_key,
            ego.spec_name() == None::<String>,
            ego.spec_id() == id,
    {
        Ego { pk: private_key, public: public_key, name: None, id }
    }

    /// Get the public key of an ego.
    pub fn get_public_key(&self) -> (k: EcdsaPublicKey)
        ensures
            k == self.spec_public_key(),
    {
        self.public
    }

    /// Get the private key of an ego.
    pub fn get_private_key(&self) -> (k: EcdsaPrivateKey)
        ensures
            k == self.spec_private_key(),
    {
        self.pk
    }

    /// Get the name of an ego.
    pub fn get_name(&self) -> (n: Option<String>)
        ensures
            n == self.spec_name(),
    {
        match &self.name {
            Some(s) => Some(s.clone()),
            None => None,
        }
    }

    /// Get the unique id of an ego. This is a hash of the ego's public key.
    pub fn get_id(&self) -> (id: &HashCode)
        ensures
            *id == self.spec_id(),
    {
        &self.id
    }

    /// The ego as a line of text: its name, or `<anonymous>` where it has
    /// none, then the text of its id in round brackets.
    pub fn to_text(&self, id_text: &str) -> (r: String)
        ensures
            r@ == (match self.spec_name() {
                Some(n) => n@,
                None => "<anonymous>"@,
            }) + " ("@ + id_text@ + ")"@,
    {
        let mut out = match &self.name {
            Some(n) => n.clone(),
            None => String::from_str("<anonymous>"),
        };
        out.append(" (");
        out.append(id_text);
        out.append(")");
        out
    }

    /// A copy of the ego.
    pub fn duplicate(&self) -> (ego: Ego)
        ensures
            ego == *self,
    {
        Ego { pk: self.pk, public: self.public, name: self.get_name(), id: self.id }
    }
}

/// Errors of the handshake that fills the mirror.
#[derive(Clone, Debug, PartialEq, Eq)]
pub enum ConnectError {
    /// The service sent a name that is not valid UTF-8.
    InvalidName,
    /// A frame of another type came before the end of the list.
    UnexpectedMessageType { ty: u16 },
    /// An update ended before its fields did.
    Truncated,
}

/// Errors of the query for a default ego.
#[derive(Clone, Debug, PartialEq, Eq)]
pub enum GetDefaultEgoError {
    /// The name of the service is too long to be sent.
    NameTooLong { name: String },
    /// The service answered with an error message.
    ServiceResponse { response: String },
    /// The service answered with an error message that is not valid UTF-8.
    MalformedErrorResponse,
    /// The answer ended before its fields did.
    Truncated,
    /// The error message of the service was cut off before its end.
    Disconnected,
    /// The answer was incoherent.
    InvalidResponse,
}

/// What the next step of the handshake is, after one update.
#[derive(Clone, Debug, PartialEq, Eq)]
pub enum SyncStep {
    /// An ego was announced. Its public key and id are to be derived, and the
    /// ego added to the mirror.
    Update { private_key: EcdsaPrivateKey, name: String },
    /// The list has ended: the mirror is complete.
    Done,
}

/// What an update frame holds: nothing for the end of the list, else the
/// bytes of the private key and of the name; or why the frame is no update.
/// The name ends at its first zero byte, or with the frame.
pub open spec fn spec_update(type_code: u16, body: Seq<u8>) -> Result<
    Option<(Seq<u8>, Seq<u8>)>,
    ConnectError,
> {
    if type_code != MESSAGE_TYPE_IDENTITY_UPDATE {
        Err(ConnectError::UnexpectedMessageType { ty: type_code })
    } else if body.len() < 4 {
        Err(ConnectError::Truncated)
    } else if spec_be_u16(body.subrange(2, 4)) != 0 {
        Ok(None)
    } else if body.len() < 36 {
        Err(ConnectError::Truncated)
    } else if !valid_utf8(body.subrange(36, spec_find_nul(body, 36))) {
        Err(ConnectError::InvalidName)
    } else {
        Ok(Some((body.subrange(4, 36), body.subrange(36, spec_find_nul(body, 36)))))
    }
}

/// The body of the query for the default ego of the service `name`: the
/// length of the name with its closing zero byte, a reserved zero, both 16
/// bits, then the name and the zero byte.
pub open spec fn spec_get_default_body(name: Seq<u8>) -> Seq<u8> {
    spec_u16_bytes((name.len() + 1) as u16) + spec_u16_bytes(0) + name + seq![0u8]
}

/// What an answer to the query for the default ego of `name` amounts to.
pub enum DefaultReply {
    /// The private key of the default ego.
    Key(Seq<u8>),
    /// An error message of the service, as bytes of valid UTF-8.
    ServiceResponse(Seq<u8>),
    /// An error message that is not valid UTF-8.
    MalformedErrorResponse,
    /// A frame that ends before its fields do.
    Truncated,
    /// An error message without its closing zero byte.
    Disconnected,
    /// Anything else.
    InvalidResponse,
}

/// Reads an answer to the query for the default ego of the service whose
/// name has the bytes `name`.
pub open spec fn spec_default_reply(name: Seq<u8>, type_code: u16, body: Seq<u8>) -> DefaultReply {
    if type_code == MESSAGE_TYPE_IDENTITY_RESULT_CODE {
        if body.len() < 4 {
            DefaultReply::Truncated
        } else if spec_find_nul(body, 4) >= body.len() {
            DefaultReply::Disconnected
        } else if !valid_utf8(body.subrange(4, spec_find_nul(body, 4))) {
            DefaultReply::MalformedErrorResponse
        } else {
            DefaultReply::ServiceResponse(body.subrange(4, spec_find_nul(body, 4)))
        }
    } else if type_code == MESSAGE_TYPE_IDENTITY_SET_DEFAULT {
        if body.len() < 2 {
            DefaultReply::Truncated
        } else if spec_be_u16(body) == 0 {
            DefaultReply::InvalidResponse
        } else if body.len() < 4 {
            DefaultReply::Truncated
        } else if spec_be_u16(body.subrange(2, 4)) != 0 {
            DefaultReply::InvalidResponse
        } else if body.len() < 36 + spec_be_u16(body) - 1 {
            DefaultReply::Truncated
        } else if body.subrange(36, 36 + spec_be_u16(body) - 1) != name {
            DefaultReply::InvalidResponse
        } else {
            DefaultReply::Key(body.subrange(4, 36))
        }
    } else {
        DefaultReply::InvalidResponse
    }
}

/// Whether the result `r` says what `reply` amounts to.
pub open spec fn spec_reply_is(
    r: Result<EcdsaPrivateKey, GetDefaultEgoError>,
    reply: DefaultReply,
) -> bool {
    match reply {
        DefaultReply::Key(key) => r is Ok && r->Ok_0.bytes@ == key,
        DefaultReply::ServiceResponse(message) => match r {
            Err(GetDefaultEgoError::ServiceResponse { response }) => encode_utf8(response@)
                == message,
            _ => false,
        },
        DefaultReply::MalformedErrorResponse => r == Err::<EcdsaPrivateKey, GetDefaultEgoError>(
            GetDefaultEgoError::MalformedErrorResponse,
        ),
        DefaultReply::Truncated => r == Err::<EcdsaPrivateKey, GetDefaultEgoError>(
            GetDefaultEgoError::Truncated,
        ),
        DefaultReply::Disconnected => r == Err::<EcdsaPrivateKey, GetDefaultEgoError>(
            GetDefaultEgoError::Disconnected,
        ),
        DefaultReply::InvalidResponse => r == Err::<EcdsaPrivateKey, GetDefaultEgoError>(
            GetDefaultEgoError::InvalidResponse,
        ),
    }
}

spec fn spec_has(entries: Seq<Ego>, id: HashCode, i: int) -> bool {
    0 <= i < entries.len() && entries[i].id == id
}

spec fn spec_index_of(entries: Seq<Ego>, id: HashCode) -> int {
    choose|i: int| spec_has(entries, id, i)
}

spec fn spec_mirror_of(entries: Seq<Ego>) -> Map<HashCode, Ego> {
    Map::new(
        |id: HashCode| exists|i: int| spec_has(entries, id, i),
        |id: HashCode| entries[spec_index_of(entries, id)],
    )
}

/// A handle to the identity service: the local mirror of its egos.
pub struct IdentityService {
    egos: Vec<Ego>,
    synced: bool,
}

impl IdentityService {
    /// The mirror: each ego under its id.
    pub closed spec fn egos(&self) -> Map<HashCode, Ego> {
        spec_mirror_of(self.egos@)
    }

    /// The number of egos in the mirror.
    pub open spec fn count(&self) -> nat {
        self.egos().dom().len()
    }

    /// Whether the end of the list has been seen.
    pub closed spec fn is_synced(&self) -> bool {
        self.synced
    }

    /// No id is in the mirror twice.
    pub closed spec fn wf(&self) -> bool {
        &&& forall|i: int, j: int|
            0 <= i < j < self.egos@.len() ==> self.egos@[i].id != self.egos@[j].id
        &&& self.egos().dom().finite()
        &&& self.egos().dom().len() == self.egos@.len()
    }

    /// Every ego of the mirror is stored under its own id.
    pub proof fn lemma_keyed_by_id(&self, id: HashCode)
        requires
            self.egos().contains_key(id),
        ensures
            self.egos()[id].spec_id() == id,
    {
        assert(spec_has(self.egos@, id, spec_index_of(self.egos@, id)));
    }

    /// The state at the start of a channel, with the frame that opens the
    /// handshake: a `START` frame without a body. The mirror is empty and
    /// not complete yet.
    pub fn connect() -> (r: (IdentityService, Vec<u8>))
        ensures
            r.0.wf(),
            r.0.egos() == Map::<HashCode, Ego>::empty(),
            !r.0.is_synced(),
            r.1@ == spec_frame(MESSAGE_TYPE_IDENTITY_START, Seq::<u8>::empty()),
    {
        let service = IdentityService { egos: Vec::new(), synced: false };
        assert(service.egos() =~= Map::<HashCode, Ego>::empty());
        let empty: Vec<u8> = Vec::new();
        match encode(MESSAGE_TYPE_IDENTITY_START, empty.as_slice()) {
            Ok(frame) => (service, frame),
            Err(_) => vstd::pervasive::unreached(),
        }
    }

    /// One step of the handshake: reads the next frame. The end of the list
    /// completes the mirror; whatever else such a frame carries is not read.
    /// An update that announces an ego hands out its private key and name;
    /// the mirror changes only when the ego is added.
    pub fn parse_egos(&mut self, type_code: u16, body: &[u8]) -> (r: Result<SyncStep, ConnectError>)
        ensures
            final(self).egos() == old(self).egos(),
            final(self).wf() == old(self).wf(),
            match spec_update(type_code, body@) {
                Err(e) => {
                    &&& r == Err::<SyncStep, ConnectError>(e)
                    &&& final(self).is_synced() == old(self).is_synced()
                },
                Ok(None) => {
                    &&& r == Ok::<SyncStep, ConnectError>(SyncStep::Done)
                    &&& final(self).is_synced()
                },
                Ok(Some((key, name_bytes))) => {
                    &&& final(self).is_synced() == old(self).is_synced()
                    &&& match r {
                        Ok(SyncStep::Update { private_key, name }) => {
                            &&& private_key.bytes@ == key
                            &&& encode_utf8(name@) == name_bytes
                        },
                        _ => false,
                    }
                },
            },
    {
        if type_code != MESSAGE_TYPE_IDENTITY_UPDATE {
            return Err(ConnectError::UnexpectedMessageType { ty: type_code });
        }
        if body.len() < 4 {
            return Err(ConnectError::Truncated);
        }
        let end_of_list = read_u16_be(slice_subrange(body, 2, 4));
        if end_of_list != 0 {
            self.synced = true;
            proof {
                assert(self.egos@ == old(self).egos@);
            }
            return Ok(SyncStep::Done);
        }
        if body.len() < 36 {
            return Err(ConnectError::Truncated);
        }
        let private_key = EcdsaPrivateKey::from_bytes(body, 4);
        let end = find_nul(body, 36);
        let raw = copy_range(body, 36, end);
        match string_from_utf8(raw) {
            None => Err(ConnectError::InvalidName),
            Some(name) => Ok(SyncStep::Update { private_key, name }),
        }
    }

    fn find(&self, id: &HashCode) -> (r: Option<usize>)
        ensures
            match r {
                Some(i) => spec_has(self.egos@, *id, i as int),
                None => forall|i: int| !spec_has(self.egos@, *id, i),
            },
    {
        let mut i: usize = 0;
        while i < self.egos.len()
            invariant
                i <= self.egos@.len(),
                forall|j: int| 0 <= j < i ==> !spec_has(self.egos@, *id, j),
            decreases self.egos@.len() - i,
        {
            if self.egos[i].id.same(id) {
                return Some(i);
            }
            i += 1;
        }
        None
    }

    fn remove_id(&mut self, id: &HashCode)
        requires
            old(self).wf(),
        ensures
            final(self).wf(),
            final(self).is_synced() == old(self).is_synced(),
            final(self).egos() == old(self).egos().remove(*id),
    {
        let ghost before = *self;
        match self.find(id) {
            None => {
                assert(self.egos() =~= before.egos().remove(*id));
            },
            Some(i) => {
                self.egos.remove(i);
                proof {
                    let n = before.egos@.len() as int;
                    assert(spec_has(before.egos@, *id, i as int));
                    assert(forall|j: int| 0 <= j < i ==> self.egos@[j] == before.egos@[j]);
                    assert(forall|j: int| i <= j < n - 1 ==> self.egos@[j] == before.egos@[j + 1]);
                    let want = before.egos().remove(*id);
                    assert forall|k: HashCode| #[trigger]
                        self.egos().contains_key(k) <==> want.contains_key(k) by {
                        if before.egos().contains_key(k) && k != *id {
                            let b = spec_index_of(before.egos@, k);
                            assert(spec_has(before.egos@, k, b));
                            if b < i {
                                assert(spec_has(self.egos@, k, b));
                            } else {
                                assert(spec_has(self.egos@, k, b - 1));
                            }
                        }
                        if self.egos().contains_key(k) {
                            let a = spec_index_of(self.egos@, k);
                            assert(spec_has(self.egos@, k, a));
                            if a < i {
                                assert(spec_has(before.egos@, k, a));
                            } else {
                                assert(spec_has(before.egos@, k, a + 1));
                            }
                        }
                    }
                    assert forall|k: HashCode| #[trigger]
                        self.egos().contains_key(k) implies self.egos()[k] == want[k] by {
                        let a = spec_index_of(self.egos@, k);
                        assert(spec_has(self.egos@, k, a));
                        let b = spec_index_of(before.egos@, k);
                        if a < i {
                            assert(spec_has(before.egos@, k, a));
                            assert(spec_has(before.egos@, k, b));
                            assert(a == b);
                        } else {
                            assert(spec_has(before.egos@, k, a + 1));
                            assert(spec_has(before.egos@, k, b));
                            assert(a + 1 == b);
                        }
                    }
                    assert(self.egos() =~= want);
                    assert(want.dom() =~= before.egos().dom().remove(*id));
                }
            },
        }
    }

    /// Adds an ego to the mirror under its id. An ego that was there under
    /// the same id is replaced.
    pub fn add_ego(&mut self, ego: Ego)
        requires
            old(self).wf(),
        ensures
            final(self).wf(),
            final(self).is_synced() == old(self).is_synced(),
            final(self).egos() == old(self).egos().insert(ego.spec_id(), ego),
            final(self).count() == old(self).count() + (if old(self).egos().contains_key(
                ego.spec_id(),
            ) {
                0int
            } else {
                1int
            }),
            final(self).egos().dom().finite(),
    {
        let id = ego.id;
        self.remove_id(&id);
        let ghost before = *self;
        self.egos.push(ego);
        proof {
            let n = before.egos@.len() as int;
            assert(forall|i: int| 0 <= i < n ==> self.egos@[i] == before.egos@[i]);
            assert(!before.egos().contains_key(id));
            assert(forall|i: int| !spec_has(before.egos@, id, i));
            assert forall|i: int| 0 <= i < n implies self.egos@[i].id != id by {
                assert(!spec_has(before.egos@, id, i));
            }
            assert(spec_has(self.egos@, id, n));
            let want = before.egos().insert(id, ego);
            assert forall|k: HashCode| #[trigger]
                self.egos().contains_key(k) <==> want.contains_key(k) by {
                if before.egos().contains_key(k) {
                    assert(spec_has(self.egos@, k, spec_index_of(before.egos@, k)));
                }
                if self.egos().contains_key(k) && k != id {
                    assert(spec_has(before.egos@, k, spec_index_of(self.egos@, k)));
                }
            }
            assert forall|k: HashCode| #[trigger]
                self.egos().contains_key(k) implies self.egos()[k] == want[k] by {
                let a = spec_index_of(self.egos@, k);
                assert(spec_has(self.egos@, k, a));
                if k != id {
                    assert(spec_has(before.egos@, k, a));
                    let b = spec_index_of(before.egos@, k);
                    assert(spec_has(before.egos@, k, b));
                    assert(a == b);
                } else {
                    assert(a == n);
                }
            }
            assert(self.egos() =~= want);
            assert(want.dom() =~= before.egos().dom().insert(id));
            assert(before.egos().dom() =~= old(self).egos().dom().remove(id));
            assert(old(self).egos().remove(id).insert(id, ego) =~= old(self).egos().insert(
                id,
                ego,
            ));
        }
    }

    /// Whether the end of the list has been seen.
    pub fn synced(&self) -> (r: bool)
        ensures
            r == self.is_synced(),
    {
        self.synced
    }

    /// The number of egos in the mirror.
    pub fn ego_count(&self) -> (r: usize)
        requires
            self.wf(),
        ensures
            r == self.count(),
    {
        self.egos.len()
    }

    /// The ego that the mirror holds under `id`, if any.
    pub fn get_ego(&self, id: &HashCode) -> (r: Option<Ego>)
        requires
            self.wf(),
        ensures
            r == (if self.egos().contains_key(*id) {
                Some(self.egos()[*id])
            } else {
                None
            }),
    {
        match self.find(id) {
            None => None,
            Some(i) => {
                proof {
                    let j = spec_index_of(self.egos@, *id);
                    assert(spec_has(self.egos@, *id, j));
                    assert(j == i);
                }
                Some(self.egos[i].duplicate())
            },
        }
    }

    /// The frame that asks for the default ego of the service `name`. A name
    /// that does not fit a frame is refused.
    pub fn get_default_request(name: &str) -> (r: Result<Vec<u8>, GetDefaultEgoError>)
        ensures
            encode_utf8(name@).len() + 9 <= 0xffff ==> r is Ok && r->Ok_0@ == spec_frame(
                MESSAGE_TYPE_IDENTITY_GET_DEFAULT,
                spec_get_default_body(encode_utf8(name@)),
            ),
            encode_utf8(name@).len() + 9 > 0xffff ==> (match r {
                Err(GetDefaultEgoError::NameTooLong { name: refused }) => refused@ == name@,
                _ => false,
            }),
    {
        let bytes = name.as_bytes();
        if bytes.len() > usize::MAX - 9 {
            return Err(GetDefaultEgoError::NameTooLong { name: String::from_str(name) });
        }
        match to_u16(8 + bytes.len() + 1) {
            None => Err(GetDefaultEgoError::NameTooLong { name: String::from_str(name) }),
            Some(msg_length) => {
                let mut body = u16_to_be(msg_length - 8);
                let reserved = u16_to_be(0);
                append(&mut body, reserved.as_slice());
                append(&mut body, bytes);
                body.push(0u8);
                assert(body@ =~= spec_get_default_body(encode_utf8(name@)));
                match encode(MESSAGE_TYPE_IDENTITY_GET_DEFAULT, body.as_slice()) {
                    Ok(frame) => Ok(frame),
                    Err(_) => Err(GetDefaultEgoError::NameTooLong { name: String::from_str(name) }),
                }
            },
        }
    }

    /// Reads the answer to the query for the default ego of the service
    /// `name`, and hands out the private key that it names. The name in the
    /// answer must be the name that was asked for.
    pub fn parse_default_reply(name: &str, type_code: u16, body: &[u8]) -> (r: Result<
        EcdsaPrivateKey,
        GetDefaultEgoError,
    >)
        ensures
            spec_reply_is(r, spec_default_reply(encode_utf8(name@), type_code, body@)),
    {
        if type_code == MESSAGE_TYPE_IDENTITY_RESULT_CODE {
            if body.len() < 4 {
                return Err(GetDefaultEgoError::Truncated);
            }
            let end = find_nul(body, 4);
            if end >= body.len() {
                return Err(GetDefaultEgoError::Disconnected);
            }
            let raw = copy_range(body, 4, end);
            match string_from_utf8(raw) {
                None => Err(GetDefaultEgoError::MalformedErrorResponse),
                Some(response) => Err(GetDefaultEgoError::ServiceResponse { response }),
            }
        } else if type_code == MESSAGE_TYPE_IDENTITY_SET_DEFAULT {
            if body.len() < 2 {
                return Err(GetDefaultEgoError::Truncated);
            }
            let reply_name_len = read_u16_be(body);
            if reply_name_len == 0 {
                return Err(GetDefaultEgoError::InvalidResponse);
            }
            if body.len() < 4 {
                return Err(GetDefaultEgoError::Truncated);
            }
            let reserved = read_u16_be(slice_subrange(body, 2, 4));
            if reserved != 0 {
                return Err(GetDefaultEgoError::InvalidResponse);
            }
            let name_len: usize = (reply_name_len - 1) as usize;
            if body.len() < 36 || body.len() - 36 < name_len {
                return Err(GetDefaultEgoError::Truncated);
            }
            let private_key = EcdsaPrivateKey::from_bytes(body, 4);
            if !same_bytes(slice_subrange(body, 36, 36 + name_len), name.as_bytes()) {
                return Err(GetDefaultEgoError::InvalidResponse);
            }
            Ok(private_key)
        } else {
            Err(GetDefaultEgoError::InvalidResponse)
        }
    }

    /// The default ego, once the answer has named its private key and the id
    /// of that key has been derived: the ego that the mirror holds under
    /// `id`. An id that the mirror does not know is an incoherent answer.
    pub fn get_default_ego(&self, id: &HashCode) -> (r: Result<Ego, GetDefaultEgoError>)
        requires
            self.wf(),
        ensures
            r == (if self.egos().contains_key(*id) {
                Ok::<Ego, GetDefaultEgoError>(self.egos()[*id])
            } else {
                Err::<Ego, GetDefaultEgoError>(GetDefaultEgoError::InvalidResponse)
            }),
    {
        match self.get_ego(id) {
            Some(ego) => Ok(ego),
            None => Err(GetDefaultEgoError::InvalidResponse),
        }
    }
}

/// The mirror after a handshake that announced the egos of `updates`, in
/// that order, before the end of the list.
pub open spec fn spec_sync(updates: Seq<Ego>) -> Map<HashCode, Ego>
    decreases updates.len(),
{
    if updates.len() == 0 {
        Map::empty()
    } else {
        spec_sync(updates.drop_last()).insert(updates.last().spec_id(), updates.last())
    }
}

/// A handshake that announces egos with ids that all differ gives a mirror
/// of exactly that many egos, each under its own id, and holds nothing else.
/// With no ego announced the mirror is empty.
pub proof fn lemma_sync_mirrors_every_ego(updates: Seq<Ego>)
    requires
        forall|i: int, j: int|
            0 <= i < j < updates.len() ==> updates[i].spec_id() != updates[j].spec_id(),
    ensures
        spec_sync(updates).dom().finite(),
        spec_sync(updates).dom().len() == updates.len(),
        forall|i: int|
            0 <= i < updates.len() ==> spec_sync(updates).contains_key(
                (#[trigger] updates[i]).spec_id(),
            ) && spec_sync(updates)[updates[i].spec_id()] == updates[i],
        forall|id: HashCode| #[trigger]
            spec_sync(updates).contains_key(id) ==> exists|i: int|
                0 <= i < updates.len() && updates[i].spec_id() == id,
    decreases updates.len(),
{
    if updates.len() > 0 {
        let front = updates.drop_last();
        let last = updates.last();
        lemma_sync_mirrors_every_ego(front);
        assert forall|i: int| 0 <= i < front.len() implies front[i] == updates[i] by {}
        assert(!spec_sync(front).contains_key(last.spec_id())) by {
            if spec_sync(front).contains_key(last.spec_id()) {
                let i = choose|i: int| 0 <= i < front.len() && front[i].spec_id() == last.spec_id();
                assert(updates[i].spec_id() == updates[updates.len() - 1].spec_id());
            }
        }
        assert(spec_sync(updates).dom() =~= spec_sync(front).dom().insert(last.spec_id()));
        assert forall|i: int| 0 <= i < updates.len() implies spec_sync(updates).contains_key(
            (#[trigger] updates[i]).spec_id(),
        ) && spec_sync(updates)[updates[i].spec_id()] == updates[i] by {
            if i < front.len() {
                assert(spec_sync(front).contains_key(front[i].spec_id()));
            }
        }
        assert forall|id: HashCode| #[trigger]
            spec_sync(updates).contains_key(id) implies exists|i: int|
            0 <= i < updates.len() && updates[i].spec_id() == id by {
            if id == last.spec_id() {
                assert(updates[updates.len() - 1].spec_id() == id);
            } else {
                assert(spec_sync(front).contains_key(id));
                let i = choose|i: int| 0 <= i < front.len() && front[i].spec_id() == id;
                assert(updates[i].spec_id() == id);
            }
        }
    }
}

} // verus!
