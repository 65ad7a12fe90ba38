//! The transport service: the opening exchange that yields our own HELLO.

use vstd::prelude::*;
use crate::bytes::{append, copy_range, spec_u32_bytes, u32_to_be};
use crate::codec::{encode, spec_frame};
use crate::keys::PeerIdentity;

verus! {

/// Type code of a HELLO.
pub const MESSAGE_TYPE_HELLO: u16 = 17;

/// Type code of the frame that opens a transport channel.
pub const MESSAGE_TYPE_TRANSPORT_START: u16 = 360;

/// Errors of the opening exchange with the transport service.
#[derive(Clone, Copy, Debug, PartialEq, Eq)]
pub enum TransportServiceInitError {
    /// A frame of another type came where the HELLO was expected.
    NonHelloMessage { ty: u16 },
}

/// The frame that opens a transport channel: the options, 32 bits, and the
/// identity that the client claims for itself.
pub fn start_message(options: u32, peer: &PeerIdentity) -> (r: Vec<u8>)
    ensures
        r@ == spec_frame(MESSAGE_TYPE_TRANSPORT_START, spec_u32_bytes(options) + peer.bytes@),
{
    let mut body = u32_to_be(options);
    append(&mut body, peer.bytes.as_slice());
    match encode(MESSAGE_TYPE_TRANSPORT_START, body.as_slice()) {
        Ok(frame) => frame,
        Err(_) => vstd::pervasive::unreached(),
    }
}

/// A handle to the transport service, holding the HELLO of this peer as the
/// service sent it.
#[derive(Clone, Debug, PartialEq, Eq)]
pub struct TransportService {
    our_hello: Vec<u8>,
}

impl TransportService {
    /// The HELLO of this peer, as bytes.
    pub closed spec fn hello(&self) -> Seq<u8> {
        self.our_hello@
    }

    /// The frame to send first: a start message without options, for the
    /// identity of zero bytes.
    pub fn start_frame() -> (r: Vec<u8>)
        ensures
            r@ == spec_frame(
                MESSAGE_TYPE_TRANSPORT_START,
                spec_u32_bytes(0) + Seq::new(32, |i: int| 0u8),
            ),
    {
        let peer = PeerIdentity { bytes: [0u8; 32] };
        assert(peer.bytes@ =~= Seq::new(32, |i: int| 0u8));
        start_message(0, &peer)
    }

    /// Takes the answer of the service to the start message. It must be a
    /// HELLO; its body is kept as it came.
    pub fn init(type_code: u16, body: &[u8]) -> (r: Result<
        TransportService,
        TransportServiceInitError,
    >)
        ensures
            type_code == MESSAGE_TYPE_HELLO ==> r is Ok && r->Ok_0.hello() == body@,
            type_code != MESSAGE_TYPE_HELLO ==> r == Err::<
                TransportService,
                TransportServiceInitError,
            >(TransportServiceInitError::NonHelloMessage { ty: type_code }),
    {
        if type_code != MESSAGE_TYPE_HELLO {
            return Err(TransportServiceInitError::NonHelloMessage { ty: type_code });
        }
        let our_hello = copy_range(body, 0, body.len());
        assert(body@.subrange(0, body@.len() as int) =~= body@);
        Ok(TransportService { our_hello })
    }

    /// The HELLO of this peer.
    pub fn into_hello(self) -> (r: Vec<u8>)
        ensures
            r@ == self.hello(),
    {
        self.our_hello
    }
}

/// The HELLO of this peer, from the answer of the service to the start
/// message.
pub fn self_hello(type_code: u16, body: &[u8]) -> (r: Result<Vec<u8>, TransportServiceInitError>)
    ensures
        type_code == MESSAGE_TYPE_HELLO ==> r is Ok && r->Ok_0@ == body@,
        type_code != MESSAGE_TYPE_HELLO ==> r == Err::<Vec<u8>, TransportServiceInitError>(
            TransportServiceInitError::NonHelloMessage { ty: type_code },
        ),
{
    match TransportService::init(type_code, body) {
        Ok(service) => Ok(service.into_hello()),
        Err(e) => Err(e),
    }
}

} // verus!
