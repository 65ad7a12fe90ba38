//! GNS resource records as they arrive in lookup results.
//!
//! On the wire a record is a 20-byte header, all big-endian: the expiration
//! time (`u64`), the record type (`u32`), the flags (`u32`) and the length of
//! the data (`u32`); the data bytes follow.

use vstd::prelude::*;
use vstd::slice::slice_subrange;
use crate::bytes::{copy_range, read_u32_be, read_u64_be, spec_be_u32, spec_be_u64};

verus! {

/// Bytes of the fixed header of a record.
pub const RECORD_HEADER_LEN: usize = 20;

/// One resource record. The type is kept as the number that came in, known
/// or not, and the data is never looked into.
#[derive(Debug, PartialEq, Eq, Clone)]
pub struct Record {
    pub expiration: u64,
    pub record_type: u32,
    pub flags: u32,
    pub data: Vec<u8>,
}

/// The value of a record.
pub struct RecordView {
    pub expiration: u64,
    pub record_type: u32,
    pub flags: u32,
    pub data: Seq<u8>,
}

impl View for Record {
    type V = RecordView;

    open spec fn view(&self) -> RecordView {
        RecordView {
            expiration: self.expiration,
            record_type: self.record_type,
            flags: self.flags,
            data: self.data@,
        }
    }
}

/// The values of a list of records.
pub open spec fn spec_views(records: Seq<Record>) -> Seq<RecordView> {
    records.map_values(|r: Record| r@)
}

/// The record that starts at index `at` of `s`, or `None` where `s` ends
/// before the record does.
pub open spec fn spec_record_at(s: Seq<u8>, at: int) -> Option<RecordView> {
    if at + 20 > s.len() {
        None
    } else if at + 20 + spec_be_u32(s.subrange(at + 16, at + 20)) > s.len() {
        None
    } else {
        Some(
            RecordView {
                expiration: spec_be_u64(s.subrange(at, at + 8)) as u64,
                record_type: spec_be_u32(s.subrange(at + 8, at + 12)) as u32,
                flags: spec_be_u32(s.subrange(at + 12, at + 16)) as u32,
                data: s.subrange(
                    at + 20,
                    at + 20 + spec_be_u32(s.subrange(at + 16, at + 20)),
                ),
            },
        )
    }
}

/// The `count` records that follow one another from index `at` of `s`, or
/// `None` where `s` ends before the last of them does.
pub open spec fn spec_records(s: Seq<u8>, at: int, count: nat) -> Option<Seq<RecordView>>
    decreases count,
{
    if count == 0 {
        Some(Seq::empty())
    } else {
        match spec_record_at(s, at) {
            None => None,
            Some(first) => match spec_records(s, at + 20 + first.data.len(), (count - 1) as nat) {
                None => None,
                Some(rest) => Some(seq![first] + rest),
            },
        }
    }
}

impl Record {
    /// Reads the record that starts at index `at` of `src`, and says where
    /// the next one starts. `None` where `src` ends too early.
    pub fn deserialize(src: &[u8], at: usize) -> (r: Option<(Record, usize)>)
        requires
            at <= src@.len(),
        ensures
            match spec_record_at(src@, at as int) {
                None => r is None,
                Some(v) => match r {
                    Some((record, next)) => record@ == v && next == at + 20 + v.data.len(),
                    None => false,
                },
            },
    {
        if src.len() - at < RECORD_HEADER_LEN {
            return None;
        }
        let expiration = read_u64_be(slice_subrange(src, at, at + 8));
        let record_type = read_u32_be(slice_subrange(src, at + 8, at + 12));
        let flags = read_u32_be(slice_subrange(src, at + 12, at + 16));
        let data_len = read_u32_be(slice_subrange(src, at + 16, at + 20));
        let start = at + RECORD_HEADER_LEN;
        if data_len as usize > src.len() - start {
            return None;
        }
        let end = start + data_len as usize;
        let data = copy_range(src, start, end);
        Some((Record { expiration, record_type, flags, data }, end))
    }

    /// Reads `count` records that follow one another from index `at` of
    /// `src`. `None` where `src` ends before the last of them does.
    pub fn deserialize_all(src: &[u8], at: usize, count: u32) -> (r: Option<Vec<Record>>)
        requires
            at <= src@.len(),
        ensures
            match spec_records(src@, at as int, count as nat) {
                None => r is None,
                Some(views) => r is Some && spec_views(r->0@) == views,
            },
    {
        let mut records: Vec<Record> = Vec::new();
        let mut pos: usize = at;
        let mut i: u32 = 0;
        while i < count
            invariant
                i <= count,
                pos <= src@.len(),
                spec_records(src@, at as int, count as nat) == (match spec_records(
                    src@,
                    pos as int,
                    (count - i) as nat,
                ) {
                    None => None::<Seq<RecordView>>,
                    Some(rest) => Some(spec_views(records@) + rest),
                }),
            decreases count - i,
        {
            match Record::deserialize(src, pos) {
                None => {
                    return None;
                },
                Some((record, next)) => {
                    proof {
                        let rest = spec_records(src@, next as int, (count - i - 1) as nat);
                        if rest is Some {
                            assert(spec_views(records@.push(record)) + rest->0 =~= spec_views(
                                records@,
                            ) + (seq![record@] + rest->0));
                        }
                    }
                    records.push(record);
                    pos = next;
                },
            }
            i += 1;
        }
        assert(spec_views(records@) + Seq::<RecordView>::empty() =~= spec_views(records@));
        Some(records)
    }
}

} // verus!
