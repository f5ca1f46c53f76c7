//! Decoder for the binary log stream: the leading metadata record that fixes
//! the sector size, then a packed sequence of fixed-width little-endian entry
//! headers, each followed by its declared payload.

use vstd::prelude::*;
use crate::model::{
    EntryModel, FormatError, LogWriteEntry, LOG_DISCARD_FLAG, LOG_MARK_FLAG,
};

verus! {

/// Magic number carried by the leading metadata record.
pub const WRITE_LOG_MAGIC: u64 = 0x6a736677736872;

/// The only log format version this decoder understands.
pub const WRITE_LOG_VERSION: u64 = 1;

/// Size in bytes of the leading metadata record: magic, version and entry
/// count as 64-bit little-endian integers, then the sector size as a 32-bit
/// little-endian integer.
pub const SUPER_SIZE: usize = 28;

/// Size in bytes of an entry header: sector, sector count, flags and payload
/// length, each a 64-bit little-endian integer.
pub const HEADER_SIZE: usize = 32;

/// The 64-bit little-endian integer stored at `off` in `s`.
pub open spec fn le64_at(s: Seq<u8>, off: int) -> u64 {
    (s[off] as int + s[off + 1] as int * 0x100 + s[off + 2] as int * 0x1_0000 + s[off + 3] as int
        * 0x100_0000 + s[off + 4] as int * 0x1_0000_0000 + s[off + 5] as int * 0x100_0000_0000
        + s[off + 6] as int * 0x1_0000_0000_0000 + s[off + 7] as int * 0x100_0000_0000_0000) as u64
}

/// The 32-bit little-endian integer stored at `off` in `s`.
pub open spec fn le32_at(s: Seq<u8>, off: int) -> u32 {
    (s[off] as int + s[off + 1] as int * 0x100 + s[off + 2] as int * 0x1_0000 + s[off + 3] as int
        * 0x100_0000) as u32
}

/// Reads the 64-bit little-endian integer at `pos`.
pub fn read_le64(log: &Vec<u8>, pos: usize) -> (r: u64)
    requires
        pos + 8 <= log@.len(),
    ensures
        r == le64_at(log@, pos as int),
{
    // Fixes the vector's length as a machine integer, so the indices below
    // are known to be addressable.
    let _n: usize = log.len();
    log[pos] as u64 + log[pos + 1] as u64 * 0x100 + log[pos + 2] as u64 * 0x1_0000 + log[pos
        + 3] as u64 * 0x100_0000 + log[pos + 4] as u64 * 0x1_0000_0000 + log[pos + 5] as u64
        * 0x100_0000_0000 + log[pos + 6] as u64 * 0x1_0000_0000_0000 + log[pos + 7] as u64
        * 0x100_0000_0000_0000
}

/// Reads the 32-bit little-endian integer at `pos`.
pub fn read_le32(log: &Vec<u8>, pos: usize) -> (r: u32)
    requires
        pos + 4 <= log@.len(),
    ensures
        r == le32_at(log@, pos as int),
{
    // Fixes the vector's length as a machine integer, so the indices below
    // are known to be addressable.
    let _n: usize = log.len();
    log[pos] as u32 + log[pos + 1] as u32 * 0x100 + log[pos + 2] as u32 * 0x1_0000 + log[pos
        + 3] as u32 * 0x100_0000
}

/// The log's leading metadata record: format version, declared entry count,
/// and the sector size used to interpret every later entry.
#[derive(Clone, Copy, Debug, PartialEq, Eq, Structural)]
pub struct SuperBlock {
    /// Format version of the stream.
    pub version: u64,
    /// Number of entries the recorder declared.
    pub nr_entries: u64,
    /// Effective sector size, in bytes, for all byte-offset computations.
    pub sector_size: u32,
}

/// What the leading metadata record of `log` decodes to.
pub open spec fn spec_super(log: Seq<u8>) -> Result<SuperBlock, FormatError> {
    if log.len() < SUPER_SIZE {
        Result::Err(FormatError::TruncatedSuper)
    } else if le64_at(log, 0) != WRITE_LOG_MAGIC {
        Result::Err(FormatError::BadMagic)
    } else if le64_at(log, 8) != WRITE_LOG_VERSION {
        Result::Err(FormatError::UnsupportedVersion)
    } else if le32_at(log, 24) == 0 {
        Result::Err(FormatError::ZeroSectorSize)
    } else {
        Result::Ok(
            SuperBlock {
                version: le64_at(log, 8),
                nr_entries: le64_at(log, 16),
                sector_size: le32_at(log, 24),
            },
        )
    }
}

/// Decodes the leading metadata record of the log.
pub fn decode_super(log: &Vec<u8>) -> (r: Result<SuperBlock, FormatError>)
    ensures
        r == spec_super(log@),
{
    if log.len() < SUPER_SIZE {
        return Result::Err(FormatError::TruncatedSuper);
    }
    if read_le64(log, 0) != WRITE_LOG_MAGIC {
        return Result::Err(FormatError::BadMagic);
    }
    let version: u64 = read_le64(log, 8);
    if version != WRITE_LOG_VERSION {
        return Result::Err(FormatError::UnsupportedVersion);
    }
    let sector_size: u32 = read_le32(log, 24);
    if sector_size == 0 {
        return Result::Err(FormatError::ZeroSectorSize);
    }
    Result::Ok(SuperBlock { version, nr_entries: read_le64(log, 16), sector_size })
}

/// The checkpoint name held by a mark entry's payload: the payload must be a
/// nonempty NUL-terminated UTF-8 string with no interior NUL.
pub open spec fn spec_mark_text(p: Seq<u8>) -> Option<Seq<char>> {
    if p.len() > 0 && p[p.len() - 1] == 0 && (forall|j: int|
        0 <= j < p.len() - 1 ==> p[j] != 0) && vstd::utf8::valid_utf8(p.take(p.len() - 1)) {
        Option::Some(vstd::utf8::decode_utf8(p.take(p.len() - 1)))
    } else {
        Option::None
    }
}

/// Relies on `core::str::from_utf8`: it returns `Ok` exactly when the input
/// is valid UTF-8, and the returned string is the decoding of those bytes.
#[verifier::external_body]
fn utf8_to_string(b: &[u8]) -> (r: Option<String>)
    ensures
        (r is Some) == vstd::utf8::valid_utf8(b@),
        r matches Some(s) ==> s@ == vstd::utf8::decode_utf8(b@),
{
    match core::str::from_utf8(b) {
        Ok(s) => Some(s.to_owned()),
        Err(_) => None,
    }
}

/// Decodes a mark entry's payload into its checkpoint name.
pub fn decode_mark_text(p: &Vec<u8>) -> (r: Option<String>)
    ensures
        (r is Some) == (spec_mark_text(p@) is Some),
        r matches Some(s) ==> spec_mark_text(p@) == Option::Some(s@),
{
    let n: usize = p.len();
    if n == 0 {
        return Option::None;
    }
    if p[n - 1] != 0 {
        return Option::None;
    }
    let mut i: usize = 0;
    while i < n - 1
        invariant
            0 <= i <= n - 1,
            n == p@.len(),
            forall|j: int| 0 <= j < i ==> p@[j] != 0,
        decreases n - 1 - i,
    {
        if p[i] == 0 {
            return Option::None;
        }
        i = i + 1;
    }
    let sl: &[u8] = p.as_slice();
    let prefix: &[u8] = &sl[0..n - 1];
    proof {
        assert(prefix@ =~= p@.take(p@.len() - 1));
    }
    utf8_to_string(prefix)
}

/// One step of the lazy entry stream: cleanly at end, stopped by a malformed
/// record, or one more entry together with the position that follows it.
pub ghost enum Step {
    /// The stream is exhausted after a structurally complete entry.
    End,
    /// The record at this position is malformed.
    Fail(FormatError),
    /// A complete entry, and the position of the next record.
    Next(EntryModel, int),
}

/// What decoding one record at `pos` of `log` yields.
#[verifier::opaque]
pub open spec fn spec_step(log: Seq<u8>, pos: int) -> Step {
    let len = log.len() as int;
    if pos == len {
        Step::End
    } else if len - pos < HEADER_SIZE {
        Step::Fail(FormatError::TruncatedHeader)
    } else {
        let sector = le64_at(log, pos);
        let nr_sectors = le64_at(log, pos + 8);
        let flags = le64_at(log, pos + 16);
        let dlen = le64_at(log, pos + 24);
        if dlen as int > len - pos - HEADER_SIZE {
            Step::Fail(FormatError::TruncatedPayload)
        } else {
            let data = log.subrange(pos + HEADER_SIZE, pos + HEADER_SIZE + dlen);
            let next = pos + HEADER_SIZE + dlen;
            if (flags & LOG_DISCARD_FLAG) != 0 && dlen > 0 {
                Step::Fail(FormatError::DiscardWithPayload)
            } else if (flags & LOG_MARK_FLAG) != 0 {
                match spec_mark_text(data) {
                    Option::None => Step::Fail(FormatError::BadMarkText),
                    Option::Some(cmd) => Step::Next(
                        EntryModel { sector, nr_sectors, flags, data, cmd },
                        next,
                    ),
                }
            } else {
                Step::Next(
                    EntryModel { sector, nr_sectors, flags, data, cmd: Seq::empty() },
                    next,
                )
            }
        }
    }
}

/// A decoded entry always advances the position, and never past the end.
pub proof fn lemma_step_bounds(log: Seq<u8>, pos: int)
    requires
        0 <= pos <= log.len(),
    ensures
        forall|e: EntryModel, p2: int|
            spec_step(log, pos) == Step::Next(e, p2) ==> pos < p2 <= log.len(),
{
    reveal(spec_step);
}

/// Decodes the record at `pos`, returning the entry and the position that
/// follows it, `None` at a clean end of stream, or the malformed-record error.
pub fn decode_entry(log: &Vec<u8>, pos: usize) -> (r: Result<Option<(LogWriteEntry, usize)>, FormatError>)
    requires
        pos <= log@.len(),
    ensures
        match r {
            Result::Ok(Option::None) => spec_step(log@, pos as int) == Step::End,
            Result::Ok(Option::Some((e, p2))) => spec_step(log@, pos as int) == Step::Next(
                e@,
                p2 as int,
            ) && pos + HEADER_SIZE <= p2 <= log@.len(),
            Result::Err(er) => spec_step(log@, pos as int) == Step::Fail(er),
        },
{
    proof {
        reveal(spec_step);
    }
    let len: usize = log.len();
    if pos == len {
        return Result::Ok(Option::None);
    }
    if len - pos < HEADER_SIZE {
        return Result::Err(FormatError::TruncatedHeader);
    }
    let sector: u64 = read_le64(log, pos);
    let nr_sectors: u64 = read_le64(log, pos + 8);
    let flags: u64 = read_le64(log, pos + 16);
    let dlen: u64 = read_le64(log, pos + 24);
    let avail: usize = len - pos - HEADER_SIZE;
    if dlen > avail as u64 {
        return Result::Err(FormatError::TruncatedPayload);
    }
    let dl: usize = dlen as usize;
    let start: usize = pos + HEADER_SIZE;
    let mut data: Vec<u8> = Vec::new();
    let mut i: usize = 0;
    while i < dl
        invariant
            0 <= i <= dl,
            start + dl <= log@.len(),
            log@.len() <= usize::MAX,
            data@.len() == i,
            forall|j: int| 0 <= j < i ==> data@[j] == log@[start + j],
        decreases dl - i,
    {
        data.push(log[start + i]);
        i = i + 1;
    }
    proof {
        assert(data@ =~= log@.subrange(start as int, start as int + dlen));
    }
    let next: usize = start + dl;
    if (flags & LOG_DISCARD_FLAG) != 0 && dl > 0 {
        return Result::Err(FormatError::DiscardWithPayload);
    }
    if (flags & LOG_MARK_FLAG) != 0 {
        match decode_mark_text(&data) {
            Option::None => Result::Err(FormatError::BadMarkText),
            Option::Some(cmd) => Result::Ok(
                Option::Some((LogWriteEntry { sector, nr_sectors, flags, data, cmd }, next)),
            ),
        }
    } else {
        Result::Ok(
            Option::Some(
                (LogWriteEntry { sector, nr_sectors, flags, data, cmd: String::new() }, next),
            ),
        )
    }
}

} // verus!
