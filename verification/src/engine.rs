//! Replay engine: applies one decoded entry to the target image, computing
//! byte ranges from sector units and treating the image as a flat
//! byte-addressable device that transparently extends past its end.

use vstd::prelude::*;
use crate::model::{
    EntryModel, FormatError, LogWriteEntry, spec_is_discard, spec_is_write,
    spec_requires_sync_before,
};

verus! {

/// A run of `n` zero bytes.
pub open spec fn spec_zeros(n: int) -> Seq<u8> {
    Seq::new(n as nat, |i: int| 0u8)
}

/// `img` with `data` written at byte offset `off`: bytes inside the range come
/// from `data`, bytes outside keep their old value, and any gap opened past
/// the old end reads zero, as a hole in a regular file would.
pub open spec fn spec_splice(img: Seq<u8>, off: int, data: Seq<u8>) -> Seq<u8> {
    let n = vstd::math::max(img.len() as int, off + data.len());
    Seq::new(
        n as nat,
        |i: int|
            if off <= i < off + data.len() {
                data[i - off]
            } else if i < img.len() {
                img[i]
            } else {
                0u8
            },
    )
}

/// Writes `data` into the image at byte offset `off`, extending it with
/// zeroes first when the range lies past the current end.
pub fn write_range(image: &mut Vec<u8>, off: usize, data: &Vec<u8>)
    requires
        off + data@.len() <= usize::MAX,
    ensures
        final(image)@ == spec_splice(old(image)@, off as int, data@),
{
    let end: usize = off + data.len();
    while image.len() < end
        invariant
            old(image)@.len() <= image@.len(),
            image@.len() <= vstd::math::max(old(image)@.len() as int, end as int),
            forall|j: int| 0 <= j < old(image)@.len() ==> image@[j] == old(image)@[j],
            forall|j: int| old(image)@.len() <= j < image@.len() ==> image@[j] == 0,
        decreases end - image@.len(),
    {
        image.push(0);
    }
    let mut i: usize = 0;
    while i < data.len()
        invariant
            0 <= i <= data@.len(),
            end == off + data@.len(),
            end <= image@.len(),
            image@.len() == vstd::math::max(old(image)@.len() as int, end as int),
            forall|j: int|
                0 <= j < old(image)@.len() && !(off <= j < off + i) ==> image@[j] == old(
                    image,
                )@[j],
            forall|j: int|
                old(image)@.len() <= j < image@.len() && !(off <= j < off + i) ==> image@[j] == 0,
            forall|j: int| off <= j < off + i ==> image@[j] == data@[j - off],
        decreases data@.len() - i,
    {
        image.set(off + i, data[i]);
        i = i + 1;
    }
    proof {
        assert(image@ =~= spec_splice(old(image)@, off as int, data@));
    }
}

/// Zeroes the byte range `[off, off + len)` of the image, extending it first
/// when the range lies past the current end.
pub fn zero_range(image: &mut Vec<u8>, off: usize, len: usize)
    requires
        off + len <= usize::MAX,
    ensures
        final(image)@ == spec_splice(old(image)@, off as int, spec_zeros(len as int)),
{
    let end: usize = off + len;
    while image.len() < end
        invariant
            old(image)@.len() <= image@.len(),
            image@.len() <= vstd::math::max(old(image)@.len() as int, end as int),
            forall|j: int| 0 <= j < old(image)@.len() ==> image@[j] == old(image)@[j],
            forall|j: int| old(image)@.len() <= j < image@.len() ==> image@[j] == 0,
        decreases end - image@.len(),
    {
        image.push(0);
    }
    let mut i: usize = 0;
    while i < len
        invariant
            0 <= i <= len,
            end == off + len,
            end <= image@.len(),
            image@.len() == vstd::math::max(old(image)@.len() as int, end as int),
            forall|j: int|
                0 <= j < old(image)@.len() && !(off <= j < off + i) ==> image@[j] == old(
                    image,
                )@[j],
            forall|j: int|
                old(image)@.len() <= j < image@.len() && !(off <= j < off + i) ==> image@[j] == 0,
            forall|j: int| off <= j < off + i ==> image@[j] == 0,
        decreases len - i,
    {
        image.set(off + i, 0);
        i = i + 1;
    }
    proof {
        assert(image@ =~= spec_splice(old(image)@, off as int, spec_zeros(len as int)));
    }
}

/// What applying one entry does to the image.  A write's payload must match
/// the computed byte length exactly; a write or discard whose byte range does
/// not fit in the address space is rejected; marks and pure metadata entries
/// leave the image untouched.
#[verifier::opaque]
pub open spec fn spec_apply(img: Seq<u8>, e: EntryModel, ss: u32) -> Result<Seq<u8>, FormatError> {
    let off = e.sector as int * ss as int;
    let blen = e.nr_sectors as int * ss as int;
    if spec_is_write(e) {
        if e.data.len() != blen {
            Result::Err(FormatError::PayloadSizeMismatch)
        } else if off + blen > usize::MAX {
            Result::Err(FormatError::RangeOverflow)
        } else {
            Result::Ok(spec_splice(img, off, e.data))
        }
    } else if spec_is_discard(e) && e.nr_sectors > 0 {
        if off + blen > usize::MAX {
            Result::Err(FormatError::RangeOverflow)
        } else {
            Result::Ok(spec_splice(img, off, spec_zeros(blen)))
        }
    } else {
        Result::Ok(img)
    }
}

/// The byte range an entry addresses: `(sector * sector_size,
/// nr_sectors * sector_size)`, or `None` when that range does not fit in 64
/// bits.
pub fn entry_byte_range(entry: &LogWriteEntry, sector_size: u32) -> (r: Option<(u64, u64)>)
    ensures
        r matches Some(p) ==> p.0 == entry@.sector as int * sector_size as int && p.1
            == entry@.nr_sectors as int * sector_size as int,
        (r is None) == (entry@.sector as int * sector_size as int + entry@.nr_sectors as int
            * sector_size as int > u64::MAX),
{
    let ss: u64 = sector_size as u64;
    match entry.sector.checked_mul(ss) {
        Option::None => {
            proof {
                vstd::arithmetic::mul::lemma_mul_nonnegative(entry@.nr_sectors as int, ss as int);
            }
            Option::None
        },
        Option::Some(off) => match entry.nr_sectors.checked_mul(ss) {
            Option::None => {
                Option::None
            },
            Option::Some(blen) => match off.checked_add(blen) {
                Option::None => Option::None,
                Option::Some(_) => Option::Some((off, blen)),
            },
        },
    }
}

/// Applies one entry to the image: writes its payload, zeroes a discarded
/// range, or does nothing for marks and pure metadata.  Returns whether the
/// entry demanded a durability barrier, or the error that makes it
/// inapplicable; a failed entry leaves the image untouched.
pub fn apply_entry(image: &mut Vec<u8>, entry: &LogWriteEntry, sector_size: u32) -> (r: Result<
    bool,
    FormatError,
>)
    ensures
        match spec_apply(old(image)@, entry@, sector_size) {
            Result::Ok(img2) => r == Result::Ok::<bool, FormatError>(
                spec_requires_sync_before(entry@),
            ) && final(image)@ == img2,
            Result::Err(e) => r == Result::Err::<bool, FormatError>(e) && final(image)@ == old(
                image,
            )@,
        },
{
    proof {
        reveal(spec_apply);
    }
    let ss: u64 = sector_size as u64;
    let data_len: usize = entry.data.len();
    if entry.is_write() {
        let blen: u64 = match entry.nr_sectors.checked_mul(ss) {
            Option::Some(b) => b,
            Option::None => {
                return Result::Err(FormatError::PayloadSizeMismatch);
            },
        };
        if data_len as u64 != blen {
            return Result::Err(FormatError::PayloadSizeMismatch);
        }
        let off: u64 = match entry.sector.checked_mul(ss) {
            Option::Some(o) => o,
            Option::None => {
                return Result::Err(FormatError::RangeOverflow);
            },
        };
        let end: u64 = match off.checked_add(blen) {
            Option::Some(e) => e,
            Option::None => {
                return Result::Err(FormatError::RangeOverflow);
            },
        };
        if end > usize::MAX as u64 {
            return Result::Err(FormatError::RangeOverflow);
        }
        write_range(image, off as usize, &entry.data);
        Result::Ok(entry.requires_sync_before())
    } else if entry.is_discard() && entry.nr_sectors > 0 {
        let blen: u64 = match entry.nr_sectors.checked_mul(ss) {
            Option::Some(b) => b,
            Option::None => {
                proof {
                    vstd::arithmetic::mul::lemma_mul_nonnegative(entry@.sector as int, ss as int);
                }
                return Result::Err(FormatError::RangeOverflow);
            },
        };
        let off: u64 = match entry.sector.checked_mul(ss) {
            Option::Some(o) => o,
            Option::None => {
                return Result::Err(FormatError::RangeOverflow);
            },
        };
        let end: u64 = match off.checked_add(blen) {
            Option::Some(e) => e,
            Option::None => {
                return Result::Err(FormatError::RangeOverflow);
            },
        };
        if end > usize::MAX as u64 {
            return Result::Err(FormatError::RangeOverflow);
        }
        zero_range(image, off as usize, blen as usize);
        Result::Ok(entry.requires_sync_before())
    } else {
        Result::Ok(entry.requires_sync_before())
    }
}

/// Byte-range exactness of the engine: an applied write or discard changes
/// exactly the range `[sector * sector_size, sector * sector_size +
/// nr_sectors * sector_size)` of the image — writes place their payload
/// there, discards place zeroes — and every byte outside it keeps its old
/// value (or reads zero where the image was extended).
pub proof fn lemma_byte_range_exact(img: Seq<u8>, e: EntryModel, ss: u32, img2: Seq<u8>)
    requires
        spec_apply(img, e, ss) == Result::Ok::<Seq<u8>, FormatError>(img2),
        spec_is_write(e) || (spec_is_discard(e) && e.nr_sectors > 0),
    ensures
        ({
            let off = e.sector as int * ss as int;
            let blen = e.nr_sectors as int * ss as int;
            &&& off + blen == (e.sector as int + e.nr_sectors as int) * ss as int
            &&& img2.len() == vstd::math::max(img.len() as int, off + blen)
            &&& forall|i: int|
                off <= i < off + blen ==> img2[i] == (if spec_is_write(e) {
                    e.data[i - off]
                } else {
                    0u8
                })
            &&& forall|i: int|
                0 <= i < img.len() && !(off <= i < off + blen) ==> img2[i] == img[i]
            &&& forall|i: int|
                img.len() <= i < img2.len() && !(off <= i < off + blen) ==> img2[i] == 0
        }),
{
    reveal(spec_apply);
    let off = e.sector as int * ss as int;
    let blen = e.nr_sectors as int * ss as int;
    assert(e.sector as int * ss as int + e.nr_sectors as int * ss as int == (e.sector as int
        + e.nr_sectors as int) * ss as int) by (nonlinear_arith);
    if spec_is_write(e) {
        assert(e.data.len() == blen);
    }
}

} // verus!
