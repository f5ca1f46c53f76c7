//! Entry and flag model: the decoded log record, the flag bitset and its
//! classification, and the stop-condition logic of the control loop.

use vstd::prelude::*;
use vstd::string::*;

verus! {

/// A durability barrier was requested at this point of the stream.
pub const LOG_FLUSH_FLAG: u64 = 1;

/// This write must be durable before the issuing operation completes.
pub const LOG_FUA_FLAG: u64 = 2;

/// The region is being released (zeroed), not written.
pub const LOG_DISCARD_FLAG: u64 = 4;

/// A named checkpoint, not a data write.
pub const LOG_MARK_FLAG: u64 = 8;

/// Log bookkeeping data rather than a write a real device would see.
pub const LOG_METADATA_FLAG: u64 = 16;

/// Why decoding or applying a log record failed.  Every variant is fatal:
/// continuing after a corrupt record would desynchronize all later offsets.
#[derive(Clone, Copy, Debug, PartialEq, Eq, Structural)]
pub enum FormatError {
    /// The log is shorter than the leading metadata record.
    TruncatedSuper,
    /// The leading metadata record does not carry the expected magic number.
    BadMagic,
    /// The log's format version is not one this decoder understands.
    UnsupportedVersion,
    /// The leading metadata record declares a sector size of zero.
    ZeroSectorSize,
    /// The stream ends in the middle of an entry header.
    TruncatedHeader,
    /// An entry's declared payload length runs past end-of-file.
    TruncatedPayload,
    /// A discard entry carries a nonzero payload.
    DiscardWithPayload,
    /// A mark entry's payload is not a NUL-terminated UTF-8 name.
    BadMarkText,
    /// A write entry's payload length differs from `nr_sectors * sector_size`.
    PayloadSizeMismatch,
    /// An entry addresses a byte range beyond what the target can hold.
    RangeOverflow,
}

/// Mathematical view of one decoded log record.
pub ghost struct EntryModel {
    /// Starting logical sector on the device being replayed.
    pub sector: u64,
    /// Length of the affected region, in sectors.
    pub nr_sectors: u64,
    /// Flag bitset; see the `LOG_*` constants.
    pub flags: u64,
    /// Payload bytes, present for writes and marks.
    pub data: Seq<u8>,
    /// The checkpoint name, decoded only for mark entries.
    pub cmd: Seq<char>,
}

/// One decoded record of the log.
pub struct LogWriteEntry {
    /// Starting logical sector on the device being replayed.
    pub sector: u64,
    /// Length of the affected region, in sectors.
    pub nr_sectors: u64,
    /// Flag bitset; see the `LOG_*` constants.
    pub flags: u64,
    /// Payload bytes, present for writes and marks.
    pub data: Vec<u8>,
    /// The checkpoint name, decoded only for mark entries; empty otherwise.
    pub cmd: String,
}

impl View for LogWriteEntry {
    type V = EntryModel;

    open spec fn view(&self) -> EntryModel {
        EntryModel {
            sector: self.sector,
            nr_sectors: self.nr_sectors,
            flags: self.flags,
            data: self.data@,
            cmd: self.cmd@,
        }
    }
}

/// The entry carries a payload to be written at its sector range: it affects
/// a nonzero region and is neither a discard nor a mark.  A metadata-tagged
/// write still counts as a write.
pub open spec fn spec_is_write(e: EntryModel) -> bool {
    e.nr_sectors > 0 && (e.flags & LOG_DISCARD_FLAG) == 0 && (e.flags & LOG_MARK_FLAG) == 0
}

/// The entry releases its sector range instead of writing it.
pub open spec fn spec_is_discard(e: EntryModel) -> bool {
    (e.flags & LOG_DISCARD_FLAG) != 0
}

/// The entry is a named checkpoint.
pub open spec fn spec_is_mark(e: EntryModel) -> bool {
    (e.flags & LOG_MARK_FLAG) != 0
}

/// The entry carries log bookkeeping data.
pub open spec fn spec_is_metadata(e: EntryModel) -> bool {
    (e.flags & LOG_METADATA_FLAG) != 0
}

/// Everything written up to and including this entry must be made durable
/// before the entry is considered complete.
pub open spec fn spec_requires_sync_before(e: EntryModel) -> bool {
    (e.flags & (LOG_FLUSH_FLAG | LOG_FUA_FLAG)) != 0
}

impl LogWriteEntry {
    /// The entry carries a payload to be written at its sector range.
    pub fn is_write(&self) -> (r: bool)
        ensures
            r == spec_is_write(self@),
    {
        self.nr_sectors > 0 && (self.flags & LOG_DISCARD_FLAG) == 0 && (self.flags
            & LOG_MARK_FLAG) == 0
    }

    /// The entry releases its sector range instead of writing it.
    pub fn is_discard(&self) -> (r: bool)
        ensures
            r == spec_is_discard(self@),
    {
        (self.flags & LOG_DISCARD_FLAG) != 0
    }

    /// The entry is a named checkpoint.
    pub fn is_mark(&self) -> (r: bool)
        ensures
            r == spec_is_mark(self@),
    {
        (self.flags & LOG_MARK_FLAG) != 0
    }

    /// The entry carries log bookkeeping data.
    pub fn is_metadata(&self) -> (r: bool)
        ensures
            r == spec_is_metadata(self@),
    {
        (self.flags & LOG_METADATA_FLAG) != 0
    }

    /// A durability barrier is owed before this entry is considered complete.
    pub fn requires_sync_before(&self) -> (r: bool)
        ensures
            r == spec_requires_sync_before(self@),
    {
        (self.flags & (LOG_FLUSH_FLAG | LOG_FUA_FLAG)) != 0
    }
}

/// The stop condition of the control loop.  An entry satisfies it when one of
/// its flags is in `stop_flags`, and, if the mark bit is part of `stop_flags`,
/// either no target mark name is configured (any matching entry stops replay)
/// or the entry is itself a mark whose name equals the target.
pub open spec fn spec_stop_match(e: EntryModel, stop_flags: u64, end_mark: Option<Seq<char>>) -> bool {
    &&& (e.flags & stop_flags) != 0
    &&& ((stop_flags & LOG_MARK_FLAG) != 0 ==> match end_mark {
        Option::None => true,
        Option::Some(m) => (e.flags & LOG_MARK_FLAG) != 0 && e.cmd == m,
    })
}

/// Equality of two string slices, decided byte by byte.
pub fn str_eq(a: &str, b: &str) -> (r: bool)
    ensures
        r == (a@ == b@),
{
    let ab: &[u8] = a.as_bytes();
    let bb: &[u8] = b.as_bytes();
    proof {
        vstd::utf8::encode_utf8_decode_utf8(a@);
        vstd::utf8::encode_utf8_decode_utf8(b@);
    }
    if ab.len() != bb.len() {
        return false;
    }
    let mut i: usize = 0;
    while i < ab.len()
        invariant
            0 <= i <= ab@.len(),
            ab@.len() == bb@.len(),
            (ab@ == bb@) == (a@ == b@),
            forall|j: int| 0 <= j < i ==> ab@[j] == bb@[j],
        decreases ab@.len() - i,
    {
        if ab[i] != bb[i] {
            return false;
        }
        i = i + 1;
    }
    proof {
        assert(ab@ =~= bb@);
    }
    true
}

/// Whether replay must halt after the given entry.  Returns 1 for "stop" and
/// 0 for "continue": the entry triggers the stop condition exactly when one of
/// its flags is in `stop_flags` and, whenever the mark bit is part of
/// `stop_flags`, the entry is itself a mark named `mark`.
pub fn should_stop(entry: &LogWriteEntry, stop_flags: u64, mark: &str) -> (r: i32)
    ensures
        r == 0 || r == 1,
        (r == 1) == spec_stop_match(entry@, stop_flags, Option::Some(mark@)),
{
    let flags: u64 = entry.flags;
    if (flags & stop_flags) > 0 {
        if (stop_flags & LOG_MARK_FLAG) == 0 {
            return 1;
        }
        if (flags & LOG_MARK_FLAG) > 0 && str_eq(entry.cmd.as_str(), mark) {
            return 1;
        }
    }
    0
}

/// Whether the external consistency check fires after an entry with the given
/// flags: a check command is configured and the entry carries the
/// force-unit-access flag, so the image is fully durable at this point.
pub fn should_run_fsck(fsck_cmd: Option<&str>, flags: u64) -> (r: bool)
    ensures
        r == (fsck_cmd is Some && (flags & LOG_FUA_FLAG) != 0),
{
    fsck_cmd.is_some() && (flags & LOG_FUA_FLAG) != 0
}

} // verus!

