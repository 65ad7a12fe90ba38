//! The read side of a service channel: bytes come in as the socket delivers
//! them, whole frames go out in the order in which they arrived.

use vstd::prelude::*;
use crate::bytes::{append, copy_range, read_u16_be, spec_be_u16};
use crate::codec::{decode, spec_declared_len, spec_decode, DecodeError, Frame};

verus! {

/// What a channel has for its reader.
#[derive(Debug, PartialEq, Eq, Clone)]
pub enum Poll {
    /// The next frame.
    Ready(Frame),
    /// No whole frame yet: at least this many bytes are missing.
    NeedMore(usize),
    /// The stream does not hold frames. The channel is of no more use.
    Malformed,
}

/// Why a channel ended.
#[derive(Debug, PartialEq, Eq, Clone, Copy)]
pub enum ReadError {
    /// The stream ended between two frames.
    Disconnected,
    /// The stream ended inside a frame.
    Truncated,
    /// The stream does not hold frames.
    Malformed,
}

/// The bytes of a stream that were read and not yet handed out as frames,
/// and the largest frame that the channel accepts.
pub struct ReadBuffer {
    data: Vec<u8>,
    limit: usize,
}

/// What the front of `stream` holds for a channel that accepts frames of up
/// to `limit` bytes: a frame that declares more is malformed, whether or not
/// all of it has arrived.
pub open spec fn spec_next(stream: Seq<u8>, limit: int) -> Result<(u16, Seq<u8>), DecodeError> {
    if stream.len() >= 4 && spec_be_u16(stream) > limit {
        Err(DecodeError::Malformed)
    } else {
        spec_decode(stream)
    }
}

impl ReadBuffer {
    /// The bytes that wait in the buffer.
    pub closed spec fn view(&self) -> Seq<u8> {
        self.data@
    }

    /// The largest frame, in bytes, that the channel accepts.
    pub closed spec fn limit(&self) -> usize {
        self.limit
    }

    /// An empty buffer for a channel that accepts every frame.
    pub fn new() -> (b: ReadBuffer)
        ensures
            b@ == Seq::<u8>::empty(),
            b.limit() == 0xffff,
    {
        ReadBuffer { data: Vec::new(), limit: 0xffff }
    }

    /// An empty buffer for a channel that accepts frames of up to `limit`
    /// bytes, header included.
    pub fn with_limit(limit: usize) -> (b: ReadBuffer)
        ensures
            b@ == Seq::<u8>::empty(),
            b.limit() == limit,
    {
        ReadBuffer { data: Vec::new(), limit }
    }

    /// Adds bytes that were read from the stream.
    pub fn feed(&mut self, bytes: &[u8])
        ensures
            final(self)@ == old(self)@ + bytes@,
            final(self).limit() == old(self).limit(),
    {
        append(&mut self.data, bytes);
    }

    /// Takes the next frame out of the buffer, if all of it is there. The
    /// bytes behind it stay. Where the frame is not whole yet, or is
    /// malformed, the buffer is left as it is.
    pub fn poll(&mut self) -> (r: Poll)
        ensures
            final(self).limit() == old(self).limit(),
            match spec_next(old(self)@, old(self).limit() as int) {
                Ok((type_code, body)) => final(self)@ == old(self)@.subrange(
                    spec_declared_len(old(self)@),
                    old(self)@.len() as int,
                ) && (match r {
                    Poll::Ready(frame) => frame.type_code == type_code && frame.body@ == body,
                    _ => false,
                }),
                Err(DecodeError::Malformed) => final(self)@ == old(self)@ && r == Poll::Malformed,
                Err(DecodeError::Truncated) => final(self)@ == old(self)@ && r == Poll::NeedMore(
                    (if old(self)@.len() < 4 {
                        4 - old(self)@.len()
                    } else {
                        spec_declared_len(old(self)@) - old(self)@.len()
                    }) as usize,
                ),
            },
    {
        let have = self.data.len();
        if have >= 4 && read_u16_be(self.data.as_slice()) as usize > self.limit {
            return Poll::Malformed;
        }
        match decode(self.data.as_slice()) {
            Ok(frame) => {
                let total = frame.body.len() + 4;
                let rest = copy_range(self.data.as_slice(), total, have);
                self.data = rest;
                Poll::Ready(frame)
            },
            Err(DecodeError::Malformed) => Poll::Malformed,
            Err(DecodeError::Truncated) => {
                if have < 4 {
                    Poll::NeedMore(4 - have)
                } else {
                    let total = read_u16_be(self.data.as_slice());
                    Poll::NeedMore(total as usize - have)
                }
            },
        }
    }

    /// What the end of the stream means for the reader: a clean end between
    /// two frames is `Disconnected`; an end inside a frame is `Truncated`,
    /// or `Malformed` where the bytes at hand are no frame at all. A whole
    /// frame that still waits is to be polled first: then there is no error
    /// to report yet.
    pub fn on_eof(&self) -> (r: Option<ReadError>)
        ensures
            r == (if self@.len() == 0 {
                Some(ReadError::Disconnected)
            } else {
                match spec_next(self@, self.limit() as int) {
                    Ok(_) => None,
                    Err(DecodeError::Malformed) => Some(ReadError::Malformed),
                    Err(DecodeError::Truncated) => Some(ReadError::Truncated),
                }
            }),
    {
        if self.data.len() == 0 {
            return Some(ReadError::Disconnected);
        }
        if self.data.len() >= 4 && read_u16_be(self.data.as_slice()) as usize > self.limit {
            return Some(ReadError::Malformed);
        }
        match decode(self.data.as_slice()) {
            Ok(_) => None,
            Err(DecodeError::Malformed) => Some(ReadError::Malformed),
            Err(DecodeError::Truncated) => Some(ReadError::Truncated),
        }
    }
}

/// Why a frame was not sent.
#[derive(Debug, PartialEq, Eq, Clone, Copy)]
pub enum SendError {
    /// The channel has failed or was closed; it must be opened anew.
    Unusable,
    /// Header and payload together do not fit a frame.
    TooLong,
}

/// What the reader of a channel does next.
#[derive(Debug, PartialEq, Eq, Clone)]
pub enum ReadStep {
    /// The next frame has arrived.
    Frame(Frame),
    /// Read from the stream: at least this many bytes are missing.
    Read(usize),
    /// The channel is of no more use.
    Failed(ReadError),
}

/// The state of one service channel: what was read and not yet handed out,
/// whether the stream has ended, and whether the channel can still be used.
/// A channel never opens itself again.
pub struct ServiceChannel {
    buffer: ReadBuffer,
    ended: bool,
    usable: bool,
}

/// The error that ends the reading of a stream that has ended with `rest`
/// still unread: none of it is a clean end, some of it a cut frame.
pub open spec fn spec_end_error(rest: Seq<u8>) -> ReadError {
    if rest.len() == 0 {
        ReadError::Disconnected
    } else {
        ReadError::Truncated
    }
}

impl ServiceChannel {
    /// Whether frames can still be sent and read.
    pub closed spec fn is_usable(&self) -> bool {
        self.usable
    }

    /// Whether the stream has ended.
    pub closed spec fn has_ended(&self) -> bool {
        self.ended
    }

    /// The bytes that were read and not yet handed out.
    pub closed spec fn buffered(&self) -> Seq<u8> {
        self.buffer@
    }

    /// The largest frame, in bytes, that the channel accepts.
    pub closed spec fn limit(&self) -> usize {
        self.buffer.limit()
    }

    /// The state of a channel that has just been opened, for frames of up to
    /// `limit` bytes.
    pub fn open(limit: usize) -> (c: ServiceChannel)
        ensures
            c.is_usable(),
            !c.has_ended(),
            c.buffered() == Seq::<u8>::empty(),
            c.limit() == limit,
    {
        ServiceChannel { buffer: ReadBuffer::with_limit(limit), ended: false, usable: true }
    }

    /// Whether frames can still be sent and read.
    pub fn usable(&self) -> (r: bool)
        ensures
            r == self.is_usable(),
    {
        self.usable
    }

    /// The bytes to write for one message: its frame, whole. Nothing is to
    /// be written on a channel that is of no more use, nor for a message
    /// that does not fit a frame.
    pub fn send(&self, type_code: u16, payload: &[u8]) -> (r: Result<Vec<u8>, SendError>)
        ensures
            !self.is_usable() ==> r == Err::<Vec<u8>, SendError>(SendError::Unusable),
            self.is_usable() && payload@.len() + 4 > 0xffff ==> r == Err::<Vec<u8>, SendError>(
                SendError::TooLong,
            ),
            self.is_usable() && payload@.len() + 4 <= 0xffff ==> r is Ok && r->Ok_0@
                == crate::codec::spec_frame(type_code, payload@),
    {
        if !self.usable {
            return Err(SendError::Unusable);
        }
        match crate::codec::encode(type_code, payload) {
            Ok(frame) => Ok(frame),
            Err(_) => Err(SendError::TooLong),
        }
    }

    /// A write has failed: the channel is of no more use.
    pub fn send_failed(&mut self)
        ensures
            !final(self).is_usable(),
            final(self).has_ended() == old(self).has_ended(),
            final(self).buffered() == old(self).buffered(),
            final(self).limit() == old(self).limit(),
    {
        self.usable = false;
    }

    /// The channel is closed, by its owner or after a failed read.
    pub fn close(&mut self)
        ensures
            !final(self).is_usable(),
            final(self).has_ended() == old(self).has_ended(),
            final(self).buffered() == old(self).buffered(),
            final(self).limit() == old(self).limit(),
    {
        self.usable = false;
    }

    /// Bytes have been read from the stream.
    pub fn received(&mut self, bytes: &[u8])
        ensures
            final(self).buffered() == old(self).buffered() + bytes@,
            final(self).is_usable() == old(self).is_usable(),
            final(self).has_ended() == old(self).has_ended(),
            final(self).limit() == old(self).limit(),
    {
        self.buffer.feed(bytes);
    }

    /// The stream has ended: no more bytes will come.
    pub fn end_of_stream(&mut self)
        ensures
            final(self).has_ended(),
            final(self).buffered() == old(self).buffered(),
            final(self).is_usable() == old(self).is_usable(),
            final(self).limit() == old(self).limit(),
    {
        self.ended = true;
    }

    /// The next step of the reader. Frames are handed out in the order in
    /// which they arrived, also those that arrived before the stream ended.
    /// A malformed frame, or the end of the stream with no whole frame
    /// left, makes the channel useless; a useless channel reads as
    /// disconnected.
    pub fn read_next(&mut self) -> (r: ReadStep)
        ensures
            final(self).limit() == old(self).limit(),
            final(self).has_ended() == old(self).has_ended(),
            !old(self).is_usable() ==> r == ReadStep::Failed(ReadError::Disconnected)
                && !final(self).is_usable() && final(self).buffered() == old(self).buffered(),
            old(self).is_usable() ==> (match spec_next(
                old(self).buffered(),
                old(self).limit() as int,
            ) {
                Ok((type_code, body)) => {
                    &&& final(self).is_usable()
                    &&& final(self).buffered() == old(self).buffered().subrange(
                        spec_declared_len(old(self).buffered()),
                        old(self).buffered().len() as int,
                    )
                    &&& match r {
                        ReadStep::Frame(frame) => frame.type_code == type_code && frame.body@
                            == body,
                        _ => false,
                    }
                },
                Err(DecodeError::Malformed) => !final(self).is_usable() && final(self).buffered()
                    == old(self).buffered() && r == ReadStep::Failed(ReadError::Malformed),
                Err(DecodeError::Truncated) => final(self).buffered() == old(self).buffered() && (
                if old(self).has_ended() {
                    !final(self).is_usable() && r == ReadStep::Failed(
                        spec_end_error(old(self).buffered()),
                    )
                } else {
                    final(self).is_usable() && r == ReadStep::Read(
                        (if old(self).buffered().len() < 4 {
                            4 - old(self).buffered().len()
                        } else {
                            spec_declared_len(old(self).buffered()) - old(self).buffered().len()
                        }) as usize,
                    )
                }),
            }),
    {
        if !self.usable {
            return ReadStep::Failed(ReadError::Disconnected);
        }
        match self.buffer.poll() {
            Poll::Ready(frame) => ReadStep::Frame(frame),
            Poll::Malformed => {
                self.usable = false;
                ReadStep::Failed(ReadError::Malformed)
            },
            Poll::NeedMore(missing) => {
                if self.ended {
                    self.usable = false;
                    match self.buffer.on_eof() {
                        Some(e) => ReadStep::Failed(e),
                        None => ReadStep::Failed(ReadError::Truncated),
                    }
                } else {
                    ReadStep::Read(missing)
                }
            },
        }
    }
}

} // verus!
