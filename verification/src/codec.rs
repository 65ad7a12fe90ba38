//! The wire codec: length-prefixed, type-tagged frames.
//!
//! A frame is a four-byte header, `total_length` then `type_code`, both
//! big-endian `u16`, followed by `total_length - 4` body bytes.

use vstd::prelude::*;
use crate::bytes::{
    append, copy_range, lemma_u16_bytes_round_trip, read_u16_be, spec_be_u16, spec_u16_bytes,
    to_u16, u16_to_be,
};

verus! {

/// Size of the frame header in bytes.
pub const HEADER_LEN: usize = 4;

/// Largest number of bytes a whole frame can have.
pub const MAX_FRAME_LEN: usize = 0xffff;

/// Why a body could not be framed.
#[derive(Debug, PartialEq, Eq, Clone, Copy)]
pub enum EncodeError {
    /// Header and body together do not fit the 16-bit length field.
    TooLong,
}

/// Why a byte stream did not yield a frame.
#[derive(Debug, PartialEq, Eq, Clone, Copy)]
pub enum DecodeError {
    /// The stream ends before the header or before the declared length.
    Truncated,
    /// The declared length is smaller than the header itself.
    Malformed,
}

/// One decoded frame.
#[derive(Debug, PartialEq, Eq, Clone)]
pub struct Frame {
    pub type_code: u16,
    pub body: Vec<u8>,
}

/// The bytes of the frame that carries `body` under `type_code`.
pub open spec fn spec_frame(type_code: u16, body: Seq<u8>) -> Seq<u8>
    recommends
        body.len() + 4 <= 0xffff,
{
    spec_u16_bytes((body.len() + 4) as u16) + spec_u16_bytes(type_code) + body
}

/// What decoding the front of `stream` gives: the type code and the body of
/// the first frame, or the reason why there is none.
pub open spec fn spec_decode(stream: Seq<u8>) -> Result<(u16, Seq<u8>), DecodeError> {
    if stream.len() < 4 {
        Err(DecodeError::Truncated)
    } else if spec_be_u16(stream) < 4 {
        Err(DecodeError::Malformed)
    } else if stream.len() < spec_be_u16(stream) {
        Err(DecodeError::Truncated)
    } else {
        Ok(
            (
                spec_be_u16(stream.subrange(2, 4)) as u16,
                stream.subrange(4, spec_be_u16(stream)),
            ),
        )
    }
}

/// Frames `body` under `type_code`. Fails exactly when header and body
/// together exceed `u16::MAX` bytes.
pub fn encode(type_code: u16, body: &[u8]) -> (r: Result<Vec<u8>, EncodeError>)
    ensures
        body@.len() + 4 <= 0xffff ==> r is Ok && r->Ok_0@ == spec_frame(type_code, body@),
        body@.len() + 4 > 0xffff ==> r == Err::<Vec<u8>, EncodeError>(EncodeError::TooLong),
{
    if body.len() > usize::MAX - HEADER_LEN {
        return Err(EncodeError::TooLong);
    }
    match to_u16(body.len() + HEADER_LEN) {
        None => Err(EncodeError::TooLong),
        Some(total) => {
            let mut out = u16_to_be(total);
            let tag = u16_to_be(type_code);
            append(&mut out, tag.as_slice());
            append(&mut out, body);
            Ok(out)
        },
    }
}

/// Decodes the first frame of `stream`. Bytes after the declared length are
/// left alone: they belong to the next frame.
pub fn decode(stream: &[u8]) -> (r: Result<Frame, DecodeError>)
    ensures
        match spec_decode(stream@) {
            Ok((type_code, body)) => r is Ok && r->Ok_0.type_code == type_code && r->Ok_0.body@
                == body,
            Err(e) => r == Err::<Frame, DecodeError>(e),
        },
{
    if stream.len() < HEADER_LEN {
        return Err(DecodeError::Truncated);
    }
    let total = read_u16_be(stream);
    if total < 4 {
        return Err(DecodeError::Malformed);
    }
    if stream.len() < total as usize {
        return Err(DecodeError::Truncated);
    }
    let tag = copy_range(stream, 2, 4);
    let type_code = read_u16_be(tag.as_slice());
    let body = copy_range(stream, HEADER_LEN, total as usize);
    Ok(Frame { type_code, body })
}

/// The number of bytes the first frame of `stream` declares, once its header
/// is there.
pub open spec fn spec_declared_len(stream: Seq<u8>) -> int {
    spec_be_u16(stream)
}

/// Decoding an encoded frame gives back the type code and the body.
pub proof fn lemma_frame_round_trip(type_code: u16, body: Seq<u8>)
    requires
        body.len() + 4 <= 0xffff,
    ensures
        spec_decode(spec_frame(type_code, body)) == Ok::<(u16, Seq<u8>), DecodeError>(
            (type_code, body),
        ),
{
    let total = (body.len() + 4) as u16;
    let f = spec_frame(type_code, body);
    lemma_u16_bytes_round_trip(total);
    lemma_u16_bytes_round_trip(type_code);
    assert(f.len() == body.len() + 4);
    assert(f[0] == spec_u16_bytes(total)[0] && f[1] == spec_u16_bytes(total)[1]);
    assert(spec_be_u16(f) == total);
    assert(f.subrange(2, 4) =~= spec_u16_bytes(type_code));
    assert(f.subrange(4, total as int) =~= body);
}

/// A frame cut short at any point decodes to `Truncated`.
pub proof fn lemma_truncated_frame(type_code: u16, body: Seq<u8>, cut: int)
    requires
        body.len() + 4 <= 0xffff,
        0 <= cut < body.len() + 4,
    ensures
        spec_decode(spec_frame(type_code, body).subrange(0, cut)) == Err::<
            (u16, Seq<u8>),
            DecodeError,
        >(DecodeError::Truncated),
{
    let total = (body.len() + 4) as u16;
    let f = spec_frame(type_code, body);
    lemma_u16_bytes_round_trip(total);
    assert(f.len() == body.len() + 4);
    let s = f.subrange(0, cut);
    if cut >= 4 {
        assert(s[0] == spec_u16_bytes(total)[0] && s[1] == spec_u16_bytes(total)[1]);
        assert(spec_be_u16(s) == total);
    }
}

/// Any stream that is shorter than the length its header declares decodes to
/// `Truncated`, and so does one too short to hold a header.
pub proof fn lemma_short_stream_is_truncated(stream: Seq<u8>)
    requires
        stream.len() < 4 || (spec_declared_len(stream) >= 4 && stream.len() < spec_declared_len(
            stream,
        )),
    ensures
        spec_decode(stream) == Err::<(u16, Seq<u8>), DecodeError>(DecodeError::Truncated),
{
}

} // verus!
