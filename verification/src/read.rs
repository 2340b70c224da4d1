use vstd::prelude::*;

use crate::error::{Error, Result};

verus! {

/// Little-endian value of two bytes.
pub open spec fn spec_u16_le(b: Seq<u8>) -> u16
    recommends
        b.len() == 2,
{
    (b[0] + 0x100 * b[1]) as u16
}

/// Little-endian value of four bytes.
pub open spec fn spec_u32_le(b: Seq<u8>) -> u32
    recommends
        b.len() == 4,
{
    (b[0] + 0x100 * b[1] + 0x1_0000 * b[2] + 0x100_0000 * b[3]) as u32
}

/// Random-access byte source the decoder reads the partition image through.
///
/// An implementation stands for a fixed range of bytes, `data()`; a read
/// either hands back exactly the requested range of that image or fails.
/// When it may fail (a short image, a medium error) is the implementation's
/// business: the decoder promises nothing about inputs on which the source
/// refuses to read.
pub trait Reader {
    /// The bytes this source stands for.
    spec fn data(&self) -> Seq<u8>;

    /// Read exactly `len` bytes starting at absolute offset `offset`, or fail.
    fn read_exact_at(&self, offset: u64, len: usize) -> (r: Result<Vec<u8>>)
        ensures
            r matches Ok(v) ==> {
                &&& offset + len <= self.data().len()
                &&& v@ == self.data().subrange(offset as int, offset + len)
            },
    ;
}

/// In-memory byte source over a complete partition image.
///
/// Reads succeed exactly when they lie inside the image.
pub struct SliceReader {
    image: Vec<u8>,
}

impl SliceReader {
    pub closed spec fn spec_image(&self) -> Seq<u8> {
        self.image@
    }

    pub fn new(image: Vec<u8>) -> (r: SliceReader)
        ensures
            r.spec_image() == image@,
    {
        SliceReader { image }
    }
}

impl Reader for SliceReader {
    closed spec fn data(&self) -> Seq<u8> {
        self.image@
    }

    fn read_exact_at(&self, offset: u64, len: usize) -> (r: Result<Vec<u8>>)
        ensures
            r is Ok <==> offset + len <= self.data().len(),
    {
        let image_len: usize = self.image.len();
        if offset > image_len as u64 || len as u64 > image_len as u64 - offset {
            return Err(Error::OutOfBounds);
        }
        let start: usize = offset as usize;
        let mut out: Vec<u8> = Vec::new();
        let mut i: usize = 0;
        while i < len
            invariant
                start + len <= image_len,
                image_len == self.image@.len(),
                i <= len,
                out@ == self.image@.subrange(start as int, start + i),
            decreases len - i,
        {
            out.push(self.image[start + i]);
            assert(out@ == self.image@.subrange(start as int, start + i + 1));
            i += 1;
        }
        Ok(out)
    }
}

/// Read the single byte at `offset`.
pub fn read_u8_at<R: Reader>(reader: &R, offset: u64) -> (r: Result<u8>)
    ensures
        r matches Ok(v) ==> {
            &&& offset + 1 <= reader.data().len()
            &&& v == reader.data()[offset as int]
        },
{
    let b = reader.read_exact_at(offset, 1)?;
    Ok(b[0])
}

/// Read the little-endian 16-bit value at `offset`.
pub fn read_u16_at<R: Reader>(reader: &R, offset: u64) -> (r: Result<u16>)
    ensures
        r matches Ok(v) ==> {
            &&& offset + 2 <= reader.data().len()
            &&& v == spec_u16_le(reader.data().subrange(offset as int, offset + 2))
        },
{
    let b = reader.read_exact_at(offset, 2)?;
    Ok(b[0] as u16 + 0x100 * b[1] as u16)
}

/// Read the little-endian 32-bit value at `offset`.
pub fn read_u32_at<R: Reader>(reader: &R, offset: u64) -> (r: Result<u32>)
    ensures
        r matches Ok(v) ==> {
            &&& offset + 4 <= reader.data().len()
            &&& v == spec_u32_le(reader.data().subrange(offset as int, offset + 4))
        },
{
    let b = reader.read_exact_at(offset, 4)?;
    Ok(b[0] as u32 + 0x100 * b[1] as u32 + 0x1_0000 * b[2] as u32 + 0x100_0000 * b[3] as u32)
}

/// Byte-for-byte equality of two slices.
pub(crate) fn bytes_eq(a: &[u8], b: &[u8]) -> (r: bool)
    ensures
        r == (a@ == b@),
{
    if a.len() != b.len() {
        return false;
    }
    let mut i: usize = 0;
    while i < a.len()
        invariant
            i <= a@.len(),
            a@.len() == b@.len(),
            forall|k: int| 0 <= k < i ==> a@[k] == b@[k],
        decreases a@.len() - i,
    {
        if *vstd::slice::slice_index_get(a, i) != *vstd::slice::slice_index_get(b, i) {
            return false;
        }
        i += 1;
    }
    proof {
        assert(a@ =~= b@);
    }
    true
}

/// Pair up bytes, low byte first, into 16-bit values; a trailing odd byte is
/// dropped.
pub fn u8_to_u16(bytes: &[u8]) -> (r: Vec<u16>)
    ensures
        r@.len() == bytes@.len() / 2,
        forall|i: int|
            0 <= i < r@.len() ==> r@[i] == spec_u16_le(bytes@.subrange(2 * i, 2 * i + 2)),
{
    let mut out: Vec<u16> = Vec::new();
    let mut i: usize = 0;
    while i + 1 < bytes.len()
        invariant
            i % 2 == 0,
            i <= bytes@.len(),
            out@.len() == i / 2,
            forall|j: int|
                0 <= j < out@.len() ==> out@[j] == spec_u16_le(bytes@.subrange(2 * j, 2 * j + 2)),
        decreases bytes@.len() - i,
    {
        let lo = *vstd::slice::slice_index_get(bytes, i);
        let hi = *vstd::slice::slice_index_get(bytes, i + 1);
        out.push(lo as u16 + 0x100 * hi as u16);
        assert(bytes@.subrange(i as int, i + 2) =~= seq![bytes@[i as int], bytes@[i + 1]]);
        assert(out@.last() == spec_u16_le(bytes@.subrange(i as int, i + 2)));
        assert(2 * ((out@.len() - 1) as int) == i as int);
        i += 2;
    }
    out
}

} // verus!
