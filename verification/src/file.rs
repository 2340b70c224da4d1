use vstd::prelude::*;

use crate::error::Result;
use crate::raw_file::{chain_advance, chain_in_bounds, chain_read, RawFile};
use crate::read::Reader;

verus! {

/// A cluster-chain cursor bounded by a file's declared size.
pub struct File<'a, R> {
    raw: RawFile<'a, R>,
    remaining: u32,
}

impl<'a, R: Reader> File<'a, R> {
    /// The underlying chain cursor.
    pub closed spec fn spec_raw(&self) -> RawFile<'a, R> {
        self.raw
    }

    /// How many declared bytes are still to be read.
    pub closed spec fn spec_remaining(&self) -> u32 {
        self.remaining
    }

    /// Bound `raw` to `size` bytes: the handle will never hand out more in
    /// total, however long the chain itself runs.
    pub fn from_raw(raw: RawFile<'a, R>, size: u32) -> (r: File<'a, R>)
        ensures
            r.spec_raw() == raw,
            r.spec_remaining() == size,
    {
        Self { raw, remaining: size }
    }

    /// Read up to `len` bytes of file content.
    ///
    /// The request is clamped to the remaining declared size, so the total
    /// ever returned cannot exceed the size the handle was built with; the
    /// remaining count drops by exactly the number of bytes handed out.
    /// Once it reaches zero every further read returns no bytes and no
    /// error, without touching the byte source, and an empty request
    /// always succeeds with no bytes.
    pub fn read(&mut self, len: usize) -> (r: Result<Vec<u8>>)
        requires
            old(self).spec_raw().wf(),
        ensures
            len == 0 ==> (r matches Ok(v) && v@.len() == 0 && *final(self) == *old(self)),
            final(self).spec_raw().wf(),
            final(self).spec_raw().spec_fat() == old(self).spec_raw().spec_fat(),
            final(self).spec_raw().spec_first() == old(self).spec_raw().spec_first(),
            final(self).spec_remaining() <= old(self).spec_remaining(),
            old(self).spec_remaining() == 0 ==> (r matches Ok(v) && v@.len() == 0 && *final(self)
                == *old(self)),
            r matches Ok(v) ==> {
                let data = old(self).spec_raw().spec_fat().spec_data();
                let info = old(self).spec_raw().spec_fat().spec_info();
                let clamped = if len <= old(self).spec_remaining() {
                    len as int
                } else {
                    old(self).spec_remaining() as int
                };
                &&& v@.len() <= clamped
                &&& v@ == chain_read(
                    data,
                    info,
                    old(self).spec_raw().spec_current(),
                    old(self).spec_raw().spec_cursor(),
                    clamped as nat,
                )
                &&& final(self).spec_remaining() == old(self).spec_remaining() - v@.len()
                &&& (final(self).spec_raw().spec_current(), final(self).spec_raw().spec_cursor())
                    == chain_advance(
                    data,
                    info,
                    old(self).spec_raw().spec_current(),
                    old(self).spec_raw().spec_cursor(),
                    clamped as nat,
                )
                &&& chain_in_bounds(
                    data,
                    info,
                    old(self).spec_raw().spec_current(),
                    old(self).spec_raw().spec_cursor(),
                    clamped as nat,
                )
            },
    {
        let clamped: usize = if len <= self.remaining as usize {
            len
        } else {
            self.remaining as usize
        };
        if clamped == 0 {
            return Ok(Vec::new());
        }
        let got = self.raw.read(clamped)?;
        self.remaining = self.remaining - got.len() as u32;
        Ok(got)
    }
}

} // verus!
