//! The write-ahead log's binary framing.
//!
//! A log is a sequence of frames, each `[page_id: u64 LE][offset: u64 LE]
//! [length: u64 LE]` followed by exactly `length` payload bytes. A reader stops
//! only at a trailing frame shorter than its declared length (a crash
//! mid-append) and drops it. Whether a record can be replayed is decided when
//! it is applied, not when it is read.
use vstd::bytes::{
    lemma_auto_spec_u64_to_from_le_bytes, spec_u64_from_le_bytes, spec_u64_to_le_bytes,
    u64_from_le_bytes, u64_to_le_bytes,
};
use vstd::prelude::*;

use crate::storage::PAGE_SIZE;

verus! {

/// Size in bytes of a frame's fixed header.
pub const HEADER_SIZE: usize = 24;

/// One change record: `length` bytes of new data for the region starting at
/// `offset` within page `page_id`.
pub struct WalRecord {
    pub page_id: u64,
    pub offset: u64,
    pub length: u64,
    pub data: Vec<u8>,
}

/// The mathematical value of a record.
pub struct LogEntry {
    pub page_id: u64,
    pub offset: u64,
    pub length: u64,
    pub data: Seq<u8>,
}

impl View for WalRecord {
    type V = LogEntry;

    open spec fn view(&self) -> LogEntry {
        LogEntry {
            page_id: self.page_id,
            offset: self.offset,
            length: self.length,
            data: self.data@,
        }
    }
}

/// Why a record cannot be logged.
#[derive(PartialEq, Eq, Structural, Debug, Clone, Copy)]
pub enum WalError {
    /// The declared `length` differs from the number of payload bytes.
    LengthMismatch,
    /// `offset + length` exceeds the page size: the record could not be replayed.
    OutOfPage,
}

impl LogEntry {
    /// The changed region lies within one page.
    pub open spec fn in_page(self) -> bool {
        self.offset + self.length <= PAGE_SIZE
    }

    /// The payload holds exactly the declared number of bytes.
    pub open spec fn complete(self) -> bool {
        self.data.len() == self.length
    }

    /// The record can be logged and replayed.
    pub open spec fn valid(self) -> bool {
        &&& self.complete()
        &&& self.in_page()
    }

    /// The bytes of the record's frame.
    pub open spec fn frame(self) -> Seq<u8> {
        spec_u64_to_le_bytes(self.page_id) + spec_u64_to_le_bytes(self.offset)
            + spec_u64_to_le_bytes(self.length) + self.data
    }
}

/// The bytes of a log holding the given records, in order.
pub open spec fn frames(rs: Seq<LogEntry>) -> Seq<u8>
    decreases rs.len(),
{
    if rs.len() == 0 {
        Seq::empty()
    } else {
        rs[0].frame() + frames(rs.drop_first())
    }
}

/// The records that a reader recovers from the bytes of a log.
pub open spec fn decode_log(buf: Seq<u8>) -> Seq<LogEntry>
    decreases buf.len(),
{
    if buf.len() < HEADER_SIZE {
        Seq::empty()
    } else {
        let e = LogEntry {
            page_id: spec_u64_from_le_bytes(buf.subrange(0, 8)),
            offset: spec_u64_from_le_bytes(buf.subrange(8, 16)),
            length: spec_u64_from_le_bytes(buf.subrange(16, 24)),
            data: buf.subrange(HEADER_SIZE as int, HEADER_SIZE + declared_length(buf)),
        };
        if declared_length(buf) > buf.len() - HEADER_SIZE {
            Seq::empty()
        } else {
            seq![e] + decode_log(buf.subrange(HEADER_SIZE + declared_length(buf), buf.len() as int))
        }
    }
}

/// The length field of the frame that starts `buf`.
pub open spec fn declared_length(buf: Seq<u8>) -> int {
    spec_u64_from_le_bytes(buf.subrange(16, 24)) as int
}

/// The values of a sequence of records.
pub open spec fn entries(rs: Seq<WalRecord>) -> Seq<LogEntry> {
    rs.map_values(|r: WalRecord| r@)
}

impl WalRecord {
    /// The record can be logged and replayed.
    pub fn is_valid(&self) -> (r: bool)
        ensures
            r == self@.valid(),
    {
        self.data.len() as u64 == self.length && self.offset <= PAGE_SIZE as u64 && self.length
            <= PAGE_SIZE as u64 - self.offset
    }
}

/// The frame of one record, checked for consistency first.
pub fn encode_record(rec: &WalRecord) -> (r: Result<Vec<u8>, WalError>)
    ensures
        rec.data@.len() != rec.length ==> r == Err::<Vec<u8>, WalError>(WalError::LengthMismatch),
        rec.data@.len() == rec.length && !rec@.in_page() ==> r == Err::<Vec<u8>, WalError>(
            WalError::OutOfPage,
        ),
        rec@.valid() ==> (r matches Ok(bytes) && bytes@ == rec@.frame()),
{
    if rec.data.len() as u64 != rec.length {
        return Err(WalError::LengthMismatch);
    }
    if rec.offset > PAGE_SIZE as u64 || rec.length > PAGE_SIZE as u64 - rec.offset {
        return Err(WalError::OutOfPage);
    }
    let mut out = u64_to_le_bytes(rec.page_id);
    let mut b = u64_to_le_bytes(rec.offset);
    out.append(&mut b);
    let mut b = u64_to_le_bytes(rec.length);
    out.append(&mut b);
    let mut i: usize = 0;
    while i < rec.data.len()
        invariant
            i <= rec.data@.len(),
            out@ == spec_u64_to_le_bytes(rec.page_id) + spec_u64_to_le_bytes(rec.offset)
                + spec_u64_to_le_bytes(rec.length) + rec.data@.subrange(0, i as int),
        decreases rec.data@.len() - i,
    {
        out.push(rec.data[i]);
        i = i + 1;
        assert(out@ =~= spec_u64_to_le_bytes(rec.page_id) + spec_u64_to_le_bytes(rec.offset)
            + spec_u64_to_le_bytes(rec.length) + rec.data@.subrange(0, i as int));
    }
    assert(rec.data@.subrange(0, i as int) =~= rec.data@);
    Ok(out)
}


/// The records held by the bytes of a log, in order; a trailing frame shorter
/// than its declared length is dropped.
pub fn decode_records(buf: &[u8]) -> (r: Vec<WalRecord>)
    ensures
        entries(r@) == decode_log(buf@),
        forall|i: int| 0 <= i < r@.len() ==> (#[trigger] r@[i])@.complete(),
{
    let mut records: Vec<WalRecord> = Vec::new();
    let mut pos: usize = 0;
    let mut done = false;
    assert(buf@.subrange(0, buf@.len() as int) =~= buf@);
    assert(entries(records@) + decode_log(buf@) =~= decode_log(buf@));
    while !done && buf.len() - pos >= HEADER_SIZE
        invariant
            pos <= buf@.len(),
            decode_log(buf@) == entries(records@) + decode_log(
                buf@.subrange(pos as int, buf@.len() as int),
            ),
            done ==> decode_log(buf@.subrange(pos as int, buf@.len() as int)) == Seq::<
                LogEntry,
            >::empty(),
            forall|i: int| 0 <= i < records@.len() ==> (#[trigger] records@[i])@.complete(),
        decreases buf@.len() - pos, if done { 0int } else { 1int },
    {
        let ghost rest = buf@.subrange(pos as int, buf@.len() as int);
        let page_id = u64_from_le_bytes(&buf[pos..pos + 8]);
        let offset = u64_from_le_bytes(&buf[pos + 8..pos + 16]);
        let length = u64_from_le_bytes(&buf[pos + 16..pos + 24]);
        assert(rest.subrange(0, 8) =~= buf@.subrange(pos as int, pos + 8));
        assert(rest.subrange(8, 16) =~= buf@.subrange(pos + 8, pos + 16));
        assert(rest.subrange(16, 24) =~= buf@.subrange(pos + 16, pos + 24));
        if length > (buf.len() - pos - HEADER_SIZE) as u64 {
            done = true;
        } else {
            let start = pos + HEADER_SIZE;
            let end = start + length as usize;
            let data = vstd::slice::slice_to_vec(&buf[start..end]);
            let rec = WalRecord { page_id, offset, length, data };
            let ghost before = records@;
            assert(rest.subrange(HEADER_SIZE as int, HEADER_SIZE + length) =~= buf@.subrange(
                start as int,
                end as int,
            ));
            assert(rest.subrange(HEADER_SIZE + length, rest.len() as int) =~= buf@.subrange(
                end as int,
                buf@.len() as int,
            ));
            records.push(rec);
            pos = end;
            assert(entries(records@) =~= entries(before).push(rec@));
            assert(entries(before).push(rec@) + decode_log(
                buf@.subrange(pos as int, buf@.len() as int),
            ) =~= entries(before) + (seq![rec@] + decode_log(
                buf@.subrange(pos as int, buf@.len() as int),
            )));
        }
    }
    assert(decode_log(buf@.subrange(pos as int, buf@.len() as int)) =~= Seq::<LogEntry>::empty());
    assert(entries(records@) + Seq::<LogEntry>::empty() =~= entries(records@));
    records
}


/// Reading the frame of a complete record yields that record and leaves the reader
/// at the next frame.
proof fn lemma_decode_frame(e: LogEntry, rest: Seq<u8>)
    requires
        e.complete(),
    ensures
        decode_log(e.frame() + rest) == seq![e] + decode_log(rest),
{
    lemma_auto_spec_u64_to_from_le_bytes();
    let buf = e.frame() + rest;
    let n = HEADER_SIZE + e.length;
    assert(buf.subrange(0, 8) =~= spec_u64_to_le_bytes(e.page_id));
    assert(buf.subrange(8, 16) =~= spec_u64_to_le_bytes(e.offset));
    assert(buf.subrange(16, 24) =~= spec_u64_to_le_bytes(e.length));
    assert(buf.subrange(HEADER_SIZE as int, n) =~= e.data);
    assert(buf.subrange(n, buf.len() as int) =~= rest);
}

/// The frames of a non-empty sequence of records, followed by more bytes.
proof fn lemma_frames_split(rs: Seq<LogEntry>, tail: Seq<u8>)
    requires
        rs.len() > 0,
    ensures
        frames(rs) + tail == rs[0].frame() + (frames(rs.drop_first()) + tail),
{
    assert(frames(rs) + tail =~= rs[0].frame() + (frames(rs.drop_first()) + tail));
}

/// Appending records and reading the log back returns exactly those records,
/// in the order they were appended; a record logged after any others always
/// reads back.
pub proof fn lemma_read_back_appended(rs: Seq<LogEntry>)
    requires
        forall|i: int| 0 <= i < rs.len() ==> (#[trigger] rs[i]).complete(),
    ensures
        decode_log(frames(rs)) == rs,
    decreases rs.len(),
{
    if rs.len() > 0 {
        lemma_frames_split(rs, Seq::empty());
        assert(frames(rs) + Seq::<u8>::empty() =~= frames(rs));
        assert(frames(rs.drop_first()) + Seq::<u8>::empty() =~= frames(rs.drop_first()));
        assert forall|i: int| 0 <= i < rs.drop_first().len() implies (
        #[trigger] rs.drop_first()[i]).complete() by {
            assert(rs.drop_first()[i] == rs[i + 1]);
        }
        lemma_read_back_appended(rs.drop_first());
        lemma_decode_frame(rs[0], frames(rs.drop_first()));
        assert(seq![rs[0]] + rs.drop_first() =~= rs);
    } else {
        assert(frames(rs) =~= Seq::<u8>::empty());
        assert(rs =~= Seq::<LogEntry>::empty());
    }
}

/// A log cut short inside its last frame (a crash during an append) reads
/// back as all the complete records before it; the partial frame is dropped.
pub proof fn lemma_read_back_truncated(rs: Seq<LogEntry>, last: LogEntry, cut: int)
    requires
        forall|i: int| 0 <= i < rs.len() ==> (#[trigger] rs[i]).complete(),
        last.complete(),
        0 <= cut < last.frame().len(),
    ensures
        decode_log(frames(rs) + last.frame().subrange(0, cut)) == rs,
    decreases rs.len(),
{
    let tail = last.frame().subrange(0, cut);
    if rs.len() > 0 {
        lemma_frames_split(rs, tail);
        assert forall|i: int| 0 <= i < rs.drop_first().len() implies (
        #[trigger] rs.drop_first()[i]).complete() by {
            assert(rs.drop_first()[i] == rs[i + 1]);
        }
        lemma_read_back_truncated(rs.drop_first(), last, cut);
        lemma_decode_frame(rs[0], frames(rs.drop_first()) + tail);
        assert(seq![rs[0]] + rs.drop_first() =~= rs);
    } else {
        assert(frames(rs) + tail =~= tail);
        if cut >= HEADER_SIZE {
            lemma_auto_spec_u64_to_from_le_bytes();
            assert(tail.subrange(16, 24) =~= spec_u64_to_le_bytes(last.length));
        }
        assert(decode_log(tail) =~= rs);
    }
}

} // verus!
