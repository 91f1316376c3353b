//! The master's append-only operation log. Each entry is laid out as
//! `sequence (8 bytes LE) | payload length (4 bytes LE) | payload | crc (4 bytes LE)`,
//! where the CRC-32 covers the sequence, the length and the payload.
use vstd::prelude::*;
use vstd::bytes::*;
use crate::checksum::{crc32_of, compute_block_crc32};

verus! {

/// Errors of the operation log.
#[derive(Debug, Clone, PartialEq, Eq)]
pub enum OplogError {
    /// An I/O error, with its message.
    Io(String),
    ChecksumMismatch(u64),
    CorruptedEntry,
}

/// One decoded entry of the log.
#[derive(Debug)]
pub struct LogEntry {
    pub sequence: u64,
    pub payload: Vec<u8>,
    pub crc32: u32,
}

/// What a log entry stands for.
pub struct LogEntryView {
    pub sequence: u64,
    pub payload: Seq<u8>,
    pub crc32: u32,
}

impl View for LogEntry {
    type V = LogEntryView;

    open spec fn view(&self) -> LogEntryView {
        LogEntryView { sequence: self.sequence, payload: self.payload@, crc32: self.crc32 }
    }
}

/// The views of a sequence of entries.
pub open spec fn entries_view(v: Seq<LogEntry>) -> Seq<LogEntryView> {
    v.map_values(|e: LogEntry| e@)
}

/// The sequence number and length fields that precede a payload. The length
/// is the payload's length truncated to 32 bits.
pub open spec fn entry_header(sequence: u64, len: nat) -> Seq<u8> {
    spec_u64_to_le_bytes(sequence) + spec_u32_to_le_bytes(len as u32)
}

/// The CRC stored after a payload.
pub open spec fn entry_crc(sequence: u64, payload: Seq<u8>) -> u32 {
    crc32_of(entry_header(sequence, payload.len()) + payload)
}

/// The bytes of one encoded entry.
pub open spec fn encoded_entry(sequence: u64, payload: Seq<u8>) -> Seq<u8> {
    entry_header(sequence, payload.len()) + payload + spec_u32_to_le_bytes(entry_crc(sequence, payload))
}

/// The bytes of a log holding `entries`, in order.
pub open spec fn encoded_log(entries: Seq<LogEntryView>) -> Seq<u8>
    decreases entries.len(),
{
    if entries.len() == 0 {
        Seq::empty()
    } else {
        encoded_entry(entries[0].sequence, entries[0].payload) + encoded_log(entries.drop_first())
    }
}

/// An entry is one that the log writes: its CRC is the CRC of its header and
/// payload, and its payload length fits the 32-bit length field.
pub open spec fn well_formed_entry(e: LogEntryView) -> bool {
    &&& e.payload.len() <= u32::MAX
    &&& e.crc32 == entry_crc(e.sequence, e.payload)
}

/// Prepends decoded entries to the outcome of decoding the rest.
pub open spec fn prepend(first: Seq<LogEntryView>, rest: Result<Seq<LogEntryView>, OplogError>) -> Result<Seq<LogEntryView>, OplogError> {
    match rest {
        Ok(r) => Ok(first + r),
        Err(e) => Err(e),
    }
}

/// What reading a log yields: the entries up to the first incomplete one, or
/// the checksum error of the first complete entry whose CRC does not match.
pub open spec fn decode_log_spec(bytes: Seq<u8>) -> Result<Seq<LogEntryView>, OplogError>
    decreases bytes.len(),
{
    if bytes.len() < 12 {
        Ok(Seq::empty())
    } else {
        let sequence = spec_u64_from_le_bytes(bytes.subrange(0, 8));
        let len = spec_u32_from_le_bytes(bytes.subrange(8, 12)) as int;
        if bytes.len() < 16 + len {
            Ok(Seq::empty())
        } else {
            let payload = bytes.subrange(12, 12 + len);
            let crc = spec_u32_from_le_bytes(bytes.subrange(12 + len, 16 + len));
            if crc32_of(bytes.subrange(0, 12 + len)) != crc {
                Err(OplogError::ChecksumMismatch(sequence))
            } else {
                prepend(
                    seq![LogEntryView { sequence, payload, crc32: crc }],
                    decode_log_spec(bytes.skip(16 + len)),
                )
            }
        }
    }
}

/// The sequence number that follows the decoded entries: one past the last
/// entry's (wrapping), or 1 for an empty log.
pub open spec fn next_sequence_spec(entries: Seq<LogEntryView>) -> u64 {
    if entries.len() == 0 {
        1
    } else if entries.last().sequence == u64::MAX {
        0
    } else {
        (entries.last().sequence + 1) as u64
    }
}

/// Encodes one entry with sequence number `sequence`; also returns its CRC.
pub fn encode_entry(sequence: u64, payload: &[u8]) -> (r: (Vec<u8>, u32))
    ensures
        r.0@ == encoded_entry(sequence, payload@),
        r.1 == entry_crc(sequence, payload@),
{
    let mut bytes = u64_to_le_bytes(sequence);
    let len_bytes = u32_to_le_bytes(payload.len() as u32);
    bytes.extend_from_slice(len_bytes.as_slice());
    bytes.extend_from_slice(payload);
    let crc = compute_block_crc32(bytes.as_slice());
    let crc_bytes = u32_to_le_bytes(crc);
    proof {
        assert(bytes@ =~= entry_header(sequence, payload@.len()) + payload@);
    }
    bytes.extend_from_slice(crc_bytes.as_slice());
    proof {
        assert(bytes@ =~= encoded_entry(sequence, payload@));
    }
    (bytes, crc)
}

/// Decodes a log: the entries up to the first incomplete one, or the checksum
/// error of the first entry whose stored CRC does not match.
pub fn decode_log(bytes: &[u8]) -> (r: Result<Vec<LogEntry>, OplogError>)
    ensures
        match (r, decode_log_spec(bytes@)) {
            (Ok(v), Ok(s)) => entries_view(v@) == s,
            (Err(e), Err(s)) => e == s,
            _ => false,
        },
{
    let n = bytes.len();
    let mut pos: usize = 0;
    let mut out: Vec<LogEntry> = Vec::new();
    proof {
        assert(bytes@.skip(0) =~= bytes@);
        assert(prepend(Seq::empty(), decode_log_spec(bytes@)) == decode_log_spec(bytes@)) by {
            match decode_log_spec(bytes@) {
                Ok(x) => { assert(Seq::<LogEntryView>::empty() + x =~= x); },
                Err(_) => {},
            }
        }
    }
    loop
        invariant
            n == bytes@.len(),
            pos <= n,
            decode_log_spec(bytes@) == prepend(entries_view(out@), decode_log_spec(bytes@.skip(pos as int))),
        decreases n - pos,
    {
        let rest = Ghost(bytes@.skip(pos as int));
        if n - pos < 12 {
            proof {
                assert(entries_view(out@) + Seq::<LogEntryView>::empty() =~= entries_view(out@));
            }
            return Ok(out);
        }
        let sequence = u64_from_le_bytes(vstd::slice::slice_subrange(bytes, pos, pos + 8));
        let len32 = u32_from_le_bytes(vstd::slice::slice_subrange(bytes, pos + 8, pos + 12));
        let len = len32 as usize;
        proof {
            assert(rest@.subrange(0, 8) =~= bytes@.subrange(pos as int, pos + 8));
            assert(rest@.subrange(8, 12) =~= bytes@.subrange(pos + 8, pos + 12));
        }
        if n - pos - 12 < len || n - pos - 12 - len < 4 {
            proof {
                assert(entries_view(out@) + Seq::<LogEntryView>::empty() =~= entries_view(out@));
            }
            return Ok(out);
        }
        let start = pos + 12;
        let end = start + len;
        let payload = vstd::slice::slice_to_vec(vstd::slice::slice_subrange(bytes, start, end));
        let stored = u32_from_le_bytes(vstd::slice::slice_subrange(bytes, end, end + 4));
        let computed = compute_block_crc32(vstd::slice::slice_subrange(bytes, pos, end));
        proof {
            assert(rest@.subrange(12, 12 + len) =~= payload@);
            assert(rest@.subrange(12 + len, 16 + len) =~= bytes@.subrange(end as int, end + 4));
            assert(rest@.subrange(0, 12 + len) =~= bytes@.subrange(pos as int, end as int));
            assert(rest@.skip(16 + len) =~= bytes@.skip(end + 4));
        }
        if computed != stored {
            return Err(OplogError::ChecksumMismatch(sequence));
        }
        let entry = LogEntry { sequence, payload, crc32: stored };
        proof {
            let v = entry@;
            assert(entries_view(out@.push(entry)) =~= entries_view(out@) + seq![v]);
            match decode_log_spec(bytes@.skip(end + 4)) {
                Ok(x) => {
                    assert(entries_view(out@) + (seq![v] + x) =~= (entries_view(out@) + seq![v]) + x);
                },
                Err(_) => {},
            }
        }
        out.push(entry);
        pos = end + 4;
    }
}

/// The sequence number that follows decoded entries.
pub fn next_sequence(entries: &Vec<LogEntry>) -> (r: u64)
    ensures
        r == next_sequence_spec(entries_view(entries@)),
{
    if entries.len() == 0 {
        1
    } else {
        entries[entries.len() - 1].sequence.wrapping_add(1)
    }
}

/// Decoding an encoded entry followed by more bytes yields that entry, then
/// whatever the rest decodes to.
pub proof fn lemma_decode_entry(e: LogEntryView, rest: Seq<u8>)
    requires
        well_formed_entry(e),
    ensures
        decode_log_spec(encoded_entry(e.sequence, e.payload) + rest) == prepend(seq![e], decode_log_spec(rest)),
{
    lemma_auto_spec_u64_to_from_le_bytes();
    lemma_auto_spec_u32_to_from_le_bytes();
    let len = e.payload.len() as int;
    let h = entry_header(e.sequence, e.payload.len());
    let crc_bytes = spec_u32_to_le_bytes(entry_crc(e.sequence, e.payload));
    let b = encoded_entry(e.sequence, e.payload) + rest;
    assert(spec_u64_to_le_bytes(e.sequence).len() == 8);
    assert(spec_u32_to_le_bytes(e.payload.len() as u32).len() == 4);
    assert(b.subrange(0, 8) =~= spec_u64_to_le_bytes(e.sequence));
    assert(b.subrange(8, 12) =~= spec_u32_to_le_bytes(e.payload.len() as u32));
    assert(spec_u32_from_le_bytes(b.subrange(8, 12)) as int == len);
    assert(b.subrange(12, 12 + len) =~= e.payload);
    assert(b.subrange(12 + len, 16 + len) =~= crc_bytes);
    assert(b.subrange(0, 12 + len) =~= h + e.payload);
    assert(b.skip(16 + len) =~= rest);
}

/// A log written entry by entry reads back as exactly those entries.
pub proof fn lemma_log_round_trip(es: Seq<LogEntryView>)
    requires
        forall|i: int| 0 <= i < es.len() ==> well_formed_entry(#[trigger] es[i]),
    ensures
        decode_log_spec(encoded_log(es)) == Ok::<Seq<LogEntryView>, OplogError>(es),
    decreases es.len(),
{
    if es.len() == 0 {
        assert(decode_log_spec(Seq::empty()) == Ok::<Seq<LogEntryView>, OplogError>(Seq::empty()));
        assert(es =~= Seq::<LogEntryView>::empty());
    } else {
        let tail = es.drop_first();
        assert forall|i: int| 0 <= i < tail.len() implies well_formed_entry(#[trigger] tail[i]) by {
            assert(tail[i] == es[i + 1]);
        }
        lemma_log_round_trip(tail);
        assert(well_formed_entry(es[0]));
        lemma_decode_entry(es[0], encoded_log(tail));
        assert(seq![es[0]] + tail =~= es);
    }
}

/// Appending an entry to a log appends its bytes.
pub proof fn lemma_encoded_log_push(es: Seq<LogEntryView>, e: LogEntryView)
    ensures
        encoded_log(es.push(e)) == encoded_log(es) + encoded_entry(e.sequence, e.payload),
    decreases es.len(),
{
    if es.len() == 0 {
        assert(es.push(e).drop_first() =~= Seq::<LogEntryView>::empty());
        assert(es.push(e)[0] == e);
        assert(encoded_log(es.push(e).drop_first()) == Seq::<u8>::empty());
        assert(encoded_log(es.push(e)) =~= encoded_entry(e.sequence, e.payload));
        assert(encoded_log(es) == Seq::<u8>::empty());
    } else {
        lemma_encoded_log_push(es.drop_first(), e);
        assert(es.push(e).drop_first() =~= es.drop_first().push(e));
        assert(encoded_log(es.push(e)) =~= encoded_log(es) + encoded_entry(e.sequence, e.payload));
    }
}

/// After appending a well-formed entry to a log of well-formed entries,
/// the log reads back as the old entries followed by the new one, and the
/// sequence number recovered on reopening follows the new entry's.
pub proof fn lemma_append_then_reopen(es: Seq<LogEntryView>, e: LogEntryView)
    requires
        forall|i: int| 0 <= i < es.len() ==> well_formed_entry(#[trigger] es[i]),
        well_formed_entry(e),
    ensures
        decode_log_spec(encoded_log(es) + encoded_entry(e.sequence, e.payload)) == Ok::<Seq<LogEntryView>, OplogError>(es.push(e)),
        next_sequence_spec(es.push(e)) == (if e.sequence == u64::MAX { 0 } else { (e.sequence + 1) as u64 }),
{
    lemma_encoded_log_push(es, e);
    let all = es.push(e);
    assert forall|i: int| 0 <= i < all.len() implies well_formed_entry(#[trigger] all[i]) by {
        if i < es.len() {
            assert(all[i] == es[i]);
        }
    }
    lemma_log_round_trip(all);
}

} // verus!
