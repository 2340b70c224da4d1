use vstd::prelude::*;

verus! {

/// UTF-8 encoding of one code point, by its magnitude: one to four bytes.
pub open spec fn spec_utf8_bytes(cp: u32) -> Seq<u8> {
    if cp < 0x80 {
        seq![cp as u8]
    } else if cp < 0x800 {
        seq![(0xc0 | (cp >> 6)) as u8, (0x80 | (cp & 0x3f)) as u8]
    } else if cp < 0x1_0000 {
        seq![
            (0xe0 | (cp >> 12)) as u8,
            (0x80 | ((cp >> 6) & 0x3f)) as u8,
            (0x80 | (cp & 0x3f)) as u8,
        ]
    } else {
        seq![
            (0xf0 | (cp >> 18)) as u8,
            (0x80 | ((cp >> 12) & 0x3f)) as u8,
            (0x80 | ((cp >> 6) & 0x3f)) as u8,
            (0x80 | (cp & 0x3f)) as u8,
        ]
    }
}

/// UTF-8 re-encoding of a UTF-16 sequence: a high surrogate followed by a
/// low surrogate combines into one supplementary code point; a surrogate
/// without its partner stands for the replacement character U+FFFD.
pub open spec fn spec_utf16_to_utf8(units: Seq<u16>) -> Seq<u8>
    decreases units.len(),
{
    if units.len() == 0 {
        Seq::empty()
    } else {
        let u = units[0];
        if 0xd800 <= u < 0xdc00 && units.len() >= 2 && 0xdc00 <= units[1] < 0xe000 {
            let cp = 0x1_0000 + (u - 0xd800) * 0x400 + (units[1] - 0xdc00);
            spec_utf8_bytes(cp as u32) + spec_utf16_to_utf8(units.skip(2))
        } else if 0xd800 <= u < 0xe000 {
            spec_utf8_bytes(0xfffd) + spec_utf16_to_utf8(units.skip(1))
        } else {
            spec_utf8_bytes(u as u32) + spec_utf16_to_utf8(units.skip(1))
        }
    }
}

/// Append the UTF-8 bytes of one code point.
fn push_utf8(out: &mut Vec<u8>, cp: u32)
    requires
        cp < 0x11_0000,
    ensures
        final(out)@ == old(out)@ + spec_utf8_bytes(cp),
{
    if cp < 0x80 {
        out.push(cp as u8);
    } else if cp < 0x800 {
        out.push((0xc0 | (cp >> 6)) as u8);
        out.push((0x80 | (cp & 0x3f)) as u8);
    } else if cp < 0x1_0000 {
        out.push((0xe0 | (cp >> 12)) as u8);
        out.push((0x80 | ((cp >> 6) & 0x3f)) as u8);
        out.push((0x80 | (cp & 0x3f)) as u8);
    } else {
        out.push((0xf0 | (cp >> 18)) as u8);
        out.push((0x80 | ((cp >> 12) & 0x3f)) as u8);
        out.push((0x80 | ((cp >> 6) & 0x3f)) as u8);
        out.push((0x80 | (cp & 0x3f)) as u8);
    }
    proof {
        assert(out@ =~= old(out)@ + spec_utf8_bytes(cp));
    }
}

/// Re-encode UTF-16 code units as UTF-8 bytes, pairing surrogates and
/// replacing unpaired ones with U+FFFD.
pub fn utf16_to_utf8(units: &Vec<u16>) -> (r: Vec<u8>)
    ensures
        r@ == spec_utf16_to_utf8(units@),
{
    let mut out: Vec<u8> = Vec::new();
    let mut i: usize = 0;
    proof {
        assert(units@.skip(0) =~= units@);
        assert(out@ + spec_utf16_to_utf8(units@) =~= spec_utf16_to_utf8(units@));
    }
    while i < units.len()
        invariant
            i <= units@.len(),
            spec_utf16_to_utf8(units@) == out@ + spec_utf16_to_utf8(units@.skip(i as int)),
        decreases units@.len() - i,
    {
        let u = units[i];
        let ghost rest = units@.skip(i as int);
        proof {
            assert(rest[0] == units@[i as int]);
        }
        if 0xd800 <= u && u < 0xdc00 && i + 1 < units.len() && 0xdc00 <= units[i + 1]
            && units[i + 1] < 0xe000 {
            proof {
                assert(rest[1] == units@[i + 1]);
            }
            let cp: u32 = 0x1_0000 + (u as u32 - 0xd800) * 0x400 + (units[i + 1] as u32 - 0xdc00);
            push_utf8(&mut out, cp);
            proof {
                assert(rest.skip(2) =~= units@.skip(i + 2));
                assert(spec_utf16_to_utf8(rest) == spec_utf8_bytes(cp) + spec_utf16_to_utf8(
                    units@.skip(i + 2),
                ));
                assert(spec_utf16_to_utf8(units@) =~= out@ + spec_utf16_to_utf8(
                    units@.skip(i + 2),
                ));
            }
            i += 2;
        } else {
            let cp: u32 = if 0xd800 <= u && u < 0xe000 {
                0xfffd
            } else {
                u as u32
            };
            push_utf8(&mut out, cp);
            proof {
                assert(rest.skip(1) =~= units@.skip(i + 1));
                assert(spec_utf16_to_utf8(rest) == spec_utf8_bytes(cp) + spec_utf16_to_utf8(
                    units@.skip(i + 1),
                ));
                assert(spec_utf16_to_utf8(units@) =~= out@ + spec_utf16_to_utf8(
                    units@.skip(i + 1),
                ));
            }
            i += 1;
        }
    }
    proof {
        assert(units@.skip(i as int) =~= Seq::<u16>::empty());
        assert(spec_utf16_to_utf8(units@) =~= out@);
    }
    out
}

/// Accumulator for a long name spread over several fragment records.
///
/// On disk the fragments stand in descending sequence order immediately
/// before their short entry, so each arriving fragment is prepended: the
/// buffer always holds the fragments seen so far in reading order.
pub struct LongNameBuf {
    buf: Vec<u8>,
}

impl LongNameBuf {
    /// The accumulated name bytes, in reading order.
    pub closed spec fn spec_data(&self) -> Seq<u8> {
        self.buf@
    }

    pub fn new() -> (r: Self)
        ensures
            r.spec_data() == Seq::<u8>::empty(),
    {
        LongNameBuf { buf: Vec::new() }
    }

    /// Prepend one fragment's bytes.
    pub fn push_component(&mut self, component: &[u8])
        requires
            component@.len() + old(self).spec_data().len() <= 256,
        ensures
            final(self).spec_data() == component@ + old(self).spec_data(),
    {
        let mut joined = vstd::slice::slice_to_vec(component);
        joined.append(&mut self.buf);
        self.buf = joined;
    }

    /// The name accumulated so far.
    pub fn data(&self) -> (r: &[u8])
        ensures
            r@ == self.spec_data(),
    {
        self.buf.as_slice()
    }

    /// Drop everything accumulated, ready for the next entry.
    pub fn clear(&mut self)
        ensures
            final(self).spec_data() == Seq::<u8>::empty(),
    {
        self.buf = Vec::new();
    }

    pub fn len(&self) -> (r: usize)
        ensures
            r == self.spec_data().len(),
    {
        self.buf.len()
    }

    pub fn is_empty(&self) -> (r: bool)
        ensures
            r == (self.spec_data().len() == 0),
    {
        self.buf.len() == 0
    }
}

} // verus!
