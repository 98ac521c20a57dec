//! Framing of ledger log records: a 32-bit length, a CRC-32, the 64-bit
//! sequence number and the serialized command, all little-endian. The
//! length counts the sequence number and the command; the checksum covers
//! the length bytes, the sequence number and the command.

use vstd::prelude::*;
use crate::engine_output::{crc32, crc32_of, le32, le64, put_u32, put_u64};

verus! {

/// Largest length a record may declare.
pub const MAX_RECORD_SIZE: usize = 10 * 1024 * 1024;

/// The value of four little-endian bytes.
pub open spec fn u32_le(b: Seq<u8>) -> nat {
    b[0] as nat + b[1] as nat * 0x100 + b[2] as nat * 0x1_0000 + b[3] as nat * 0x100_0000
}

/// The value of eight little-endian bytes.
pub open spec fn u64_le(b: Seq<u8>) -> nat {
    u32_le(b) + u32_le(b.subrange(4, 8)) * 0x1_0000_0000
}

/// The bytes of one record.
pub open spec fn record_bytes(seq: u64, cmd: Seq<u8>) -> Seq<u8> {
    let len = (8 + cmd.len()) as u32;
    le32(len) + le32(crc32_of(le32(len) + le64(seq) + cmd)) + le64(seq) + cmd
}

/// Why a record cannot be read.
#[derive(Debug, Clone, Copy, PartialEq, Eq, Structural)]
pub enum WalReadError {
    /// The declared length is over the limit.
    TooLarge,
    /// The bytes end inside the record.
    Truncated,
    /// The stored checksum does not match the bytes.
    CrcMismatch,
    /// The declared length cannot hold a sequence number.
    TooShort,
}

/// What reading at the start of some bytes finds.
#[derive(Debug, Clone, PartialEq, Eq)]
pub enum RecordRead {
    /// No further record: the bytes end, or a zero length marks the end.
    End,
    /// A record: its sequence number, its command bytes, and how many bytes it spans.
    Record { seq: u64, payload: Vec<u8>, consumed: usize },
}

/// What reading at the start of `b` gives, as values.
pub enum RecordSpec {
    End,
    Record { seq: u64, payload: Seq<u8>, consumed: nat },
    Refused(WalReadError),
}

/// Reading one record from the start of `b`.
pub open spec fn read_record(b: Seq<u8>) -> RecordSpec {
    if b.len() < 4 {
        RecordSpec::End
    } else {
        let n = u32_le(b);
        if n > MAX_RECORD_SIZE {
            RecordSpec::Refused(WalReadError::TooLarge)
        } else if n == 0 {
            RecordSpec::End
        } else if b.len() < 8 + n {
            RecordSpec::Refused(WalReadError::Truncated)
        } else {
            let data = b.subrange(8, 8 + n as int);
            if crc32_of(b.subrange(0, 4) + data) != u32_le(b.subrange(4, 8)) {
                RecordSpec::Refused(WalReadError::CrcMismatch)
            } else if n < 8 {
                RecordSpec::Refused(WalReadError::TooShort)
            } else {
                RecordSpec::Record { seq: u64_le(data) as u64, payload: data.subrange(8, n as int), consumed: 8 + n }
            }
        }
    }
}

/// The bytes of one record for `seq` and the serialized command `cmd`.
pub fn encode_record(seq: u64, cmd: &[u8]) -> (res: Vec<u8>)
    requires
        8 + cmd@.len() <= u32::MAX,
    ensures
        res@ == record_bytes(seq, cmd@),
{
    let len: u32 = (8 + cmd.len()) as u32;
    let mut covered: Vec<u8> = Vec::new();
    put_u32(&mut covered, len);
    put_u64(&mut covered, seq);
    append_bytes(&mut covered, cmd);
    let crc = crc32(covered.as_slice());
    let mut out: Vec<u8> = Vec::new();
    put_u32(&mut out, len);
    put_u32(&mut out, crc);
    put_u64(&mut out, seq);
    append_bytes(&mut out, cmd);
    assert(covered@ =~= le32(len) + le64(seq) + cmd@);
    assert(out@ =~= record_bytes(seq, cmd@));
    out
}

fn append_bytes(out: &mut Vec<u8>, b: &[u8])
    ensures
        final(out)@ == old(out)@ + b@,
{
    let n = b.len();
    let mut i: usize = 0;
    while i < n
        invariant
            n == b@.len(),
            i <= n,
            out@ == old(out)@ + b@.subrange(0, i as int),
        decreases n - i,
    {
        out.push(b[i]);
        i = i + 1;
        assert(out@ =~= old(out)@ + b@.subrange(0, i as int));
    }
    assert(b@.subrange(0, n as int) =~= b@);
}

fn slice_bytes(b: &[u8], start: usize, end: usize) -> (res: Vec<u8>)
    requires
        start <= end <= b@.len(),
    ensures
        res@ == b@.subrange(start as int, end as int),
{
    let mut out: Vec<u8> = Vec::new();
    let mut i: usize = start;
    while i < end
        invariant
            start <= i <= end,
            end <= b@.len(),
            out@ == b@.subrange(start as int, i as int),
        decreases end - i,
    {
        out.push(b[i]);
        i = i + 1;
        assert(out@ =~= b@.subrange(start as int, i as int));
    }
    out
}

fn read_u32_le(b: &[u8], at: usize) -> (res: u32)
    requires
        at + 4 <= b@.len(),
    ensures
        res as nat == u32_le(b@.subrange(at as int, at + 4)),
{
    (b[at] as u32) + (b[at + 1] as u32) * 0x100 + (b[at + 2] as u32) * 0x1_0000 + (b[at + 3] as u32) * 0x100_0000
}

fn read_u64_le(b: &[u8], at: usize) -> (res: u64)
    requires
        at + 8 <= b@.len(),
    ensures
        res as nat == u64_le(b@.subrange(at as int, at + 8)),
{
    let total = b.len();
    assert(at + 8 <= total);
    let lo = read_u32_le(b, at);
    let hi = read_u32_le(b, at + 4);
    assert(b@.subrange(at as int, at + 8).subrange(4, 8) =~= b@.subrange(at + 4, at + 8));
    assert(b@.subrange(at as int, at + 8).subrange(0, 4) =~= b@.subrange(at as int, at + 4));
    (lo as u64) + (hi as u64) * 0x1_0000_0000
}

/// Reads the record at the start of `b`.
pub fn decode_record(b: &[u8]) -> (res: Result<RecordRead, WalReadError>)
    ensures
        match read_record(b@) {
            RecordSpec::End => res == Ok::<RecordRead, WalReadError>(RecordRead::End),
            RecordSpec::Refused(e) => res == Err::<RecordRead, WalReadError>(e),
            RecordSpec::Record { seq, payload, consumed } => res matches Ok(RecordRead::Record { seq: s, payload: p, consumed: c })
                && s == seq && p@ == payload && c == consumed,
        },
{
    if b.len() < 4 {
        return Ok(RecordRead::End);
    }
    let n = read_u32_le(b, 0);
    if n as usize > MAX_RECORD_SIZE {
        return Err(WalReadError::TooLarge);
    }
    if n == 0 {
        return Ok(RecordRead::End);
    }
    let n: usize = n as usize;
    if b.len() < 8 || b.len() - 8 < n {
        return Err(WalReadError::Truncated);
    }
    let stored = read_u32_le(b, 4);
    let mut covered = slice_bytes(b, 0, 4);
    let data = slice_bytes(b, 8, 8 + n);
    append_bytes(&mut covered, data.as_slice());
    if crc32(covered.as_slice()) != stored {
        return Err(WalReadError::CrcMismatch);
    }
    if n < 8 {
        return Err(WalReadError::TooShort);
    }
    let seq = read_u64_le(data.as_slice(), 0);
    let payload = slice_bytes(data.as_slice(), 8, n);
    Ok(RecordRead::Record { seq, payload, consumed: 8 + n })
}

/// Four little-endian bytes read back give the value written.
proof fn lemma_le32_roundtrip(x: u32)
    ensures
        u32_le(le32(x)) == x,
{
    let b0 = (x & 0xff) as u8;
    let b1 = ((x >> 8u32) & 0xff) as u8;
    let b2 = ((x >> 16u32) & 0xff) as u8;
    let b3 = ((x >> 24u32) & 0xff) as u8;
    assert(b0 as u32 + (b1 as u32) * 0x100 + (b2 as u32) * 0x1_0000 + (b3 as u32) * 0x100_0000 == x) by (bit_vector)
        requires
            b0 == (x & 0xff) as u8,
            b1 == ((x >> 8u32) & 0xff) as u8,
            b2 == ((x >> 16u32) & 0xff) as u8,
            b3 == ((x >> 24u32) & 0xff) as u8;
}

/// Eight little-endian bytes read back give the value written.
proof fn lemma_le64_roundtrip(x: u64)
    ensures
        u64_le(le64(x)) == x,
{
    let b = le64(x);
    let lo = (x & 0xffff_ffff) as u32;
    let hi = (x >> 32u64) as u32;
    lemma_le32_roundtrip(lo);
    lemma_le32_roundtrip(hi);
    assert(le32(lo) =~= b.subrange(0, 4)) by {
        assert(((lo & 0xff) as u8) == ((x & 0xff) as u8)) by (bit_vector) requires lo == (x & 0xffff_ffff) as u32;
        assert((((lo >> 8u32) & 0xff) as u8) == (((x >> 8u64) & 0xff) as u8)) by (bit_vector) requires lo == (x & 0xffff_ffff) as u32;
        assert((((lo >> 16u32) & 0xff) as u8) == (((x >> 16u64) & 0xff) as u8)) by (bit_vector) requires lo == (x & 0xffff_ffff) as u32;
        assert((((lo >> 24u32) & 0xff) as u8) == (((x >> 24u64) & 0xff) as u8)) by (bit_vector) requires lo == (x & 0xffff_ffff) as u32;
    }
    assert(le32(hi) =~= b.subrange(4, 8)) by {
        assert(((hi & 0xff) as u8) == (((x >> 32u64) & 0xff) as u8)) by (bit_vector) requires hi == (x >> 32u64) as u32;
        assert((((hi >> 8u32) & 0xff) as u8) == (((x >> 40u64) & 0xff) as u8)) by (bit_vector) requires hi == (x >> 32u64) as u32;
        assert((((hi >> 16u32) & 0xff) as u8) == (((x >> 48u64) & 0xff) as u8)) by (bit_vector) requires hi == (x >> 32u64) as u32;
        assert((((hi >> 24u32) & 0xff) as u8) == (((x >> 56u64) & 0xff) as u8)) by (bit_vector) requires hi == (x >> 32u64) as u32;
    }
    assert(lo as nat + hi as nat * 0x1_0000_0000 == x as nat) by (bit_vector)
        requires lo == (x & 0xffff_ffff) as u32, hi == (x >> 32u64) as u32;
}

/// What is written is read back: a record followed by any bytes reads as
/// that record, with its sequence number and command, spanning exactly its
/// own bytes, as long as its length is within the limit.
pub proof fn lemma_record_roundtrip(seq: u64, cmd: Seq<u8>, rest: Seq<u8>)
    requires
        8 + cmd.len() <= MAX_RECORD_SIZE,
    ensures
        read_record(record_bytes(seq, cmd) + rest) == (RecordSpec::Record {
            seq,
            payload: cmd,
            consumed: 16 + cmd.len(),
        }),
{
    let len = (8 + cmd.len()) as u32;
    let b = record_bytes(seq, cmd) + rest;
    lemma_le32_roundtrip(len);
    lemma_le32_roundtrip(crc32_of(le32(len) + le64(seq) + cmd));
    lemma_le64_roundtrip(seq);
    assert(b.subrange(0, 4) =~= le32(len));
    assert(b.subrange(4, 8) =~= le32(crc32_of(le32(len) + le64(seq) + cmd)));
    let data = b.subrange(8, 8 + len as int);
    assert(data =~= le64(seq) + cmd);
    assert(b.subrange(0, 4) + data =~= le32(len) + le64(seq) + cmd);
    assert(data.subrange(8, len as int) =~= cmd);
    assert(u32_le(b) == u32_le(b.subrange(0, 4)));
    assert(u64_le(data) == u64_le(le64(seq))) by {
        assert(data.subrange(4, 8) =~= le64(seq).subrange(4, 8));
    }
}

/// The bytes of a log: its records one after another.
pub open spec fn log_bytes(entries: Seq<(u64, Seq<u8>)>) -> Seq<u8>
    decreases entries.len(),
{
    if entries.len() == 0 {
        Seq::empty()
    } else {
        record_bytes(entries[0].0, entries[0].1) + log_bytes(entries.drop_first())
    }
}

/// Reading a log from its start, record after record, until its end: the
/// entries read, or `None` when a record is refused.
pub open spec fn read_log(b: Seq<u8>) -> Option<Seq<(u64, Seq<u8>)>>
    decreases b.len(),
{
    match read_record(b) {
        RecordSpec::End => Some(Seq::empty()),
        RecordSpec::Refused(_) => None,
        RecordSpec::Record { seq, payload, consumed } => {
            if 0 < consumed <= b.len() {
                match read_log(b.skip(consumed as int)) {
                    Some(rest) => Some(seq![(seq, payload)] + rest),
                    None => None,
                }
            } else {
                None
            }
        },
    }
}

proof fn lemma_record_len(seq: u64, cmd: Seq<u8>)
    ensures
        record_bytes(seq, cmd).len() == 16 + cmd.len(),
{
    let len = (8 + cmd.len()) as u32;
    assert(le32(len).len() == 4);
    assert(le64(seq).len() == 8);
    assert(le32(crc32_of(le32(len) + le64(seq) + cmd)).len() == 4);
}

/// A log written record by record reads back as the same entries, in the
/// same order: reopening a log recovers exactly what was written to it.
#[verifier::spinoff_prover]
#[verifier::rlimit(50)]
pub proof fn lemma_log_roundtrip(entries: Seq<(u64, Seq<u8>)>)
    requires
        forall|i: int| 0 <= i < entries.len() ==> 8 + (#[trigger] entries[i]).1.len() <= MAX_RECORD_SIZE,
    ensures
        read_log(log_bytes(entries)) == Some(entries),
    decreases entries.len(),
{
    if entries.len() == 0 {
        assert(log_bytes(entries).len() == 0);
    } else {
        let e = entries[0];
        let rest = entries.drop_first();
        assert forall|i: int| 0 <= i < rest.len() implies 8 + (#[trigger] rest[i]).1.len() <= MAX_RECORD_SIZE by {
            assert(rest[i] == entries[i + 1]);
        }
        lemma_log_roundtrip(rest);
        let b = log_bytes(entries);
        let rb = record_bytes(e.0, e.1);
        assert(b == rb + log_bytes(rest));
        lemma_record_roundtrip(e.0, e.1, log_bytes(rest));
        assert(rb.len() == 16 + e.1.len()) by {
            lemma_record_len(e.0, e.1);
        }
        assert(b.skip(16 + e.1.len() as int) =~= log_bytes(rest));
        assert(seq![(e.0, e.1)] + rest =~= entries);
    }
}

} // verus!
