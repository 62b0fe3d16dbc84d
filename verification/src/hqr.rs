//! The HQR indexed archive container.
//!
//! An archive starts with a 4-byte little-endian table-size field; the table
//! holds one 4-byte little-endian offset per entry, entry `i`'s offset at
//! byte `i * 4` (the size field doubles as entry 0's offset). At each offset
//! sits a 10-byte entry header — decompressed size, compressed size, method —
//! immediately followed by the payload: stored bytes verbatim (method 0) or
//! an LZS stream (method 1).
//!
//! Every reader here takes the archive as one byte slice and is atomic: on
//! any error the destination buffer is left untouched.

use vstd::prelude::*;

use crate::error::ErrorKind;
use crate::lzs::decompress_lzs;
use crate::lzs::lzs;
use crate::palette::Palette;
use crate::util::copy_into;
use crate::util::zero_vec;
use crate::wire::le16_at;
use crate::wire::le32_at;
use crate::wire::read_u16_le;
use crate::wire::read_u32_le;

verus! {

/// How an entry's payload is encoded.
#[derive(Clone, Copy, Debug, PartialEq, Eq, Structural)]
pub enum CompressMethod {
    Stored,
    Lzs,
}

/// The method encoded by the entry header's 16-bit method field.
pub open spec fn spec_method_from_int(value: int) -> Result<CompressMethod, ErrorKind> {
    if value == 0 {
        Ok(CompressMethod::Stored)
    } else if value == 1 {
        Ok(CompressMethod::Lzs)
    } else {
        Err(ErrorKind::InvalidFormat)
    }
}

impl CompressMethod {
    /// Decodes the entry header's method field: 0 is stored, 1 is LZS, and
    /// any other value is a hard format error.
    pub fn from_int(value: u16) -> (r: Result<CompressMethod, ErrorKind>)
        ensures
            r == spec_method_from_int(value as int),
    {
        match value {
            0 => Ok(CompressMethod::Stored),
            1 => Ok(CompressMethod::Lzs),
            _ => Err(ErrorKind::InvalidFormat),
        }
    }
}

/// One entry's header, read at the offset the index table points to.
#[derive(Clone, Copy, Debug, PartialEq, Eq, Structural)]
pub struct EntryHeader {
    /// Size of the payload once decompressed.
    pub decompressed_size: usize,
    /// Size of the payload as stored in the archive.
    pub compressed_size: usize,
    /// How the payload is encoded.
    pub method: CompressMethod,
}

/// Number of entries the archive declares: its table-size field divided by 4.
pub open spec fn num_entries(a: Seq<u8>) -> int {
    le32_at(a, 0) / 4
}

/// The header of entry `index`, or why it cannot be read: a short archive is
/// truncated, an index at or past [`num_entries`] is out of bounds, and an
/// unrecognized method field is a format error.
pub open spec fn spec_lookup(a: Seq<u8>, index: int) -> Result<EntryHeader, ErrorKind> {
    if a.len() < 4 {
        Err(ErrorKind::Truncated)
    } else if index >= num_entries(a) {
        Err(ErrorKind::OutOfBounds)
    } else if index * 4 + 4 > a.len() {
        Err(ErrorKind::Truncated)
    } else {
        let off = le32_at(a, index * 4);
        if off + 10 > a.len() {
            Err(ErrorKind::Truncated)
        } else {
            match spec_method_from_int(le16_at(a, off + 8)) {
                Err(e) => Err(e),
                Ok(method) => Ok(
                    EntryHeader {
                        decompressed_size: le32_at(a, off) as usize,
                        compressed_size: le32_at(a, off + 4) as usize,
                        method,
                    },
                ),
            }
        }
    }
}

/// The decompressed payload of entry `index`, or why it cannot be produced.
/// A stored payload is the archive's bytes verbatim; an LZS payload is the
/// decompression of exactly `compressed_size` bytes to exactly
/// `decompressed_size` bytes.
pub open spec fn spec_read_entry(a: Seq<u8>, index: int) -> Result<Seq<u8>, ErrorKind> {
    match spec_lookup(a, index) {
        Err(e) => Err(e),
        Ok(h) => {
            let payload = le32_at(a, index * 4) + 10;
            match h.method {
                CompressMethod::Stored => {
                    if payload + h.decompressed_size > a.len() {
                        Err(ErrorKind::Truncated)
                    } else {
                        Ok(a.subrange(payload, payload + h.decompressed_size))
                    }
                },
                CompressMethod::Lzs => {
                    if payload + h.compressed_size > a.len() {
                        Err(ErrorKind::Truncated)
                    } else {
                        match lzs(
                            a.subrange(payload, payload + h.compressed_size),
                            h.decompressed_size as int,
                        ) {
                            Some(v) => Ok(v),
                            None => Err(ErrorKind::Truncated),
                        }
                    }
                },
            }
        },
    }
}

/// What loading entry `index` into a destination of `cap` bytes yields: the
/// capacity is checked against the entry header before any payload is read.
pub open spec fn spec_load(a: Seq<u8>, index: int, cap: int) -> Result<Seq<u8>, ErrorKind> {
    match spec_lookup(a, index) {
        Err(e) => Err(e),
        Ok(h) => {
            if cap < h.decompressed_size {
                Err(ErrorKind::BufferTooSmall)
            } else {
                spec_read_entry(a, index)
            }
        },
    }
}

/// What loading entry `index` into a buffer allocated to its exact
/// decompressed size yields.
pub open spec fn spec_load_owned(a: Seq<u8>, index: int) -> Result<Seq<u8>, ErrorKind> {
    match spec_lookup(a, index) {
        Err(e) => Err(e),
        Ok(h) => spec_read_entry(a, index),
    }
}

/// An index at or past the declared entry count always fails with
/// `OutOfBounds`, whatever else the archive holds.
pub proof fn lemma_lookup_out_of_bounds(a: Seq<u8>, index: int)
    requires
        a.len() >= 4,
        index >= num_entries(a),
    ensures
        spec_lookup(a, index) == Err::<EntryHeader, ErrorKind>(ErrorKind::OutOfBounds),
{
}

/// A destination shorter than the entry's decompressed size always fails
/// with `BufferTooSmall`, whatever the payload holds.
pub proof fn lemma_load_buffer_too_small(a: Seq<u8>, index: int, cap: int, h: EntryHeader)
    requires
        spec_lookup(a, index) == Ok::<EntryHeader, ErrorKind>(h),
        cap < h.decompressed_size,
    ensures
        spec_load(a, index, cap) == Err::<Seq<u8>, ErrorKind>(ErrorKind::BufferTooSmall),
{
}

/// Reads the table and the header of entry `index`, returning the entry's
/// payload offset alongside the header.
fn locate(archive: &[u8], index: usize) -> (r: Result<(usize, EntryHeader), ErrorKind>)
    ensures
        match r {
            Ok((off, h)) => {
                &&& spec_lookup(archive@, index as int) == Ok::<EntryHeader, ErrorKind>(h)
                &&& off == le32_at(archive@, index as int * 4)
                &&& off + 10 <= archive@.len()
            },
            Err(e) => spec_lookup(archive@, index as int) == Err::<EntryHeader, ErrorKind>(e),
        },
{
    if archive.len() < 4 {
        return Err(ErrorKind::Truncated);
    }
    let table_field = read_u32_le(archive, 0);
    let entries = (table_field / 4) as usize;
    if index >= entries {
        return Err(ErrorKind::OutOfBounds);
    }
    assert(index * 4 + 4 <= table_field);
    if archive.len() - 4 < index * 4 {
        return Err(ErrorKind::Truncated);
    }
    let off = read_u32_le(archive, index * 4) as usize;
    if archive.len() < 10 || off > archive.len() - 10 {
        return Err(ErrorKind::Truncated);
    }
    let size = read_u32_le(archive, off) as usize;
    let csize = read_u32_le(archive, off + 4) as usize;
    let method = match CompressMethod::from_int(read_u16_le(archive, off + 8)) {
        Ok(m) => m,
        Err(e) => {
            return Err(e);
        },
    };
    Ok((off, EntryHeader { decompressed_size: size, compressed_size: csize, method }))
}

/// Reads the header of entry `index`: its decompressed size, compressed size
/// and compression method. Fails with `OutOfBounds` if and only if the index
/// is at or past the declared entry count.
pub fn lookup(archive: &[u8], index: usize) -> (r: Result<EntryHeader, ErrorKind>)
    ensures
        r == spec_lookup(archive@, index as int),
{
    match locate(archive, index) {
        Ok((_, h)) => Ok(h),
        Err(e) => Err(e),
    }
}

/// Loads entry `index` into the front of `buffer` and returns the entry's
/// decompressed size. Atomic: on any error — including a destination shorter
/// than the decompressed size — `buffer` is untouched.
pub fn load_hqr(archive: &[u8], buffer: &mut Vec<u8>, index: usize) -> (r: Result<
    usize,
    ErrorKind,
>)
    ensures
        match r {
            Ok(n) => {
                &&& spec_lookup(archive@, index as int) matches Ok(h) && n == h.decompressed_size
                &&& spec_load(archive@, index as int, old(buffer)@.len() as int) matches Ok(bytes)
                    && n == bytes.len() && final(buffer)@ == bytes + old(buffer)@.skip(n as int)
            },
            Err(e) => {
                &&& spec_load(archive@, index as int, old(buffer)@.len() as int) == Err::<
                    Seq<u8>,
                    ErrorKind,
                >(e)
                &&& final(buffer)@ == old(buffer)@
            },
        },
{
    let (off, h) = match locate(archive, index) {
        Ok(p) => p,
        Err(e) => {
            return Err(e);
        },
    };
    if buffer.len() < h.decompressed_size {
        return Err(ErrorKind::BufferTooSmall);
    }
    let alen = archive.len();
    assert(off + 10 <= alen);
    let payload = off + 10;
    let n = h.decompressed_size;
    match h.method {
        CompressMethod::Stored => {
            if n > archive.len() - payload {
                return Err(ErrorKind::Truncated);
            }
            copy_into(buffer, 0, archive, payload, n);
            proof {
                let bytes = spec_read_entry(archive@, index as int)->Ok_0;
                assert(buffer@ =~= bytes + old(buffer)@.skip(n as int));
            }
            Ok(n)
        },
        CompressMethod::Lzs => {
            if h.compressed_size > archive.len() - payload {
                return Err(ErrorKind::Truncated);
            }
            let src = vstd::slice::slice_subrange(archive, payload, payload + h.compressed_size);
            match decompress_lzs(src, n) {
                Ok(v) => {
                    copy_into(buffer, 0, v.as_slice(), 0, n);
                    proof {
                        let bytes = spec_read_entry(archive@, index as int)->Ok_0;
                        assert(buffer@ =~= bytes + old(buffer)@.skip(n as int));
                    }
                    Ok(n)
                },
                Err(_) => Err(ErrorKind::Truncated),
            }
        },
    }
}

/// Loads entry `index` into a freshly allocated buffer sized exactly to the
/// entry's decompressed size.
pub fn load_hqrm(archive: &[u8], index: usize) -> (r: Result<Vec<u8>, ErrorKind>)
    ensures
        match r {
            Ok(v) => {
                &&& spec_lookup(archive@, index as int) matches Ok(h) && v@.len()
                    == h.decompressed_size
                &&& spec_load_owned(archive@, index as int) == Ok::<Seq<u8>, ErrorKind>(v@)
            },
            Err(e) => spec_load_owned(archive@, index as int) == Err::<Seq<u8>, ErrorKind>(e),
        },
{
    let h = match lookup(archive, index) {
        Ok(h) => h,
        Err(e) => {
            return Err(e);
        },
    };
    let mut v = zero_vec(h.decompressed_size);
    match load_hqr(archive, &mut v, index) {
        Ok(n) => {
            proof {
                let bytes = spec_read_entry(archive@, index as int)->Ok_0;
                assert(v@ =~= bytes);
            }
            Ok(v)
        },
        Err(e) => Err(e),
    }
}

/// Loads entry `index` and interprets it as a full palette; a payload of any
/// other size than a whole palette is a format error.
pub fn load_hqrm_typed(archive: &[u8], index: usize) -> (r: Result<Palette, ErrorKind>)
    ensures
        match r {
            Ok(p) => {
                &&& p.wf()
                &&& spec_load_owned(archive@, index as int) == Ok::<Seq<u8>, ErrorKind>(p.data@)
            },
            Err(e) => {
                spec_load_owned(archive@, index as int) == Err::<Seq<u8>, ErrorKind>(e) || (
                spec_load_owned(archive@, index as int) matches Ok(bytes) && bytes.len() != 768
                    && e == ErrorKind::InvalidFormat)
            },
        },
{
    let v = match load_hqrm(archive, index) {
        Ok(v) => v,
        Err(e) => {
            return Err(e);
        },
    };
    if v.len() != 768 {
        return Err(ErrorKind::InvalidFormat);
    }
    Ok(Palette { data: v })
}

} // verus!
