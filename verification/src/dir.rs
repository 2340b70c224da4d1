use vstd::prelude::*;

use crate::error::{Error, Result};
use crate::file::File;
use crate::info::Info;
use crate::long_name::{spec_utf16_to_utf8, utf16_to_utf8, LongNameBuf};
use crate::raw_file::{chain_advance, chain_read, RawFile};
use crate::read::{spec_u16_le, spec_u32_le, Reader};
use crate::{
    Fat, ATTR_DIRECTORY, ATTR_LONG_NAME, ATTR_MASK, ATTR_VOLUME_ID, DIR_ENTRY_SIZE,
};

verus! {

pub const ENTRY_LAST: u8 = 0x00;
pub const ENTRY_FREE: u8 = 0xe5;

/// The on-disk format caps a directory at 2 MiB, that is 65536 records of
/// 32 bytes; the decoder stops after that many records so that a mis-linked
/// cluster chain cannot make it scan forever.
pub const MAX_DIR_RECORDS: u32 = 0x1_0000;

/// `s` without its trailing spaces.
pub open spec fn spec_trim_spaces(s: Seq<u8>) -> Seq<u8>
    decreases s.len(),
{
    if s.len() > 0 && s.last() == 0x20u8 {
        spec_trim_spaces(s.drop_last())
    } else {
        s
    }
}

/// Display name synthesized from a record's 8.3 fields: the space-trimmed
/// base, then a dot and the space-trimmed extension only when the extension
/// is non-empty.
pub open spec fn spec_short_name(rec: Seq<u8>) -> Seq<u8> {
    let base = spec_trim_spaces(rec.subrange(0, 8));
    let ext = spec_trim_spaces(rec.subrange(8, 11));
    if ext.len() == 0 {
        base
    } else {
        base + seq![0x2eu8] + ext
    }
}

/// Entry kind taken from a masked attribute byte: the volume-ID bit wins,
/// then the directory bit, else the record is a file.
pub open spec fn spec_attr_type(attr: u8) -> EntryType {
    if attr & ATTR_VOLUME_ID != 0 {
        EntryType::VolumeLabel
    } else if attr & ATTR_DIRECTORY != 0 {
        EntryType::Directory
    } else {
        EntryType::File
    }
}

/// Declared size: little-endian 32-bit value at record offset 28.
pub open spec fn spec_record_size(rec: Seq<u8>) -> u32 {
    spec_u32_le(rec.subrange(28, 32))
}

/// Starting cluster: high 16 bits at offset 20, low 16 bits at offset 26.
pub open spec fn spec_record_first_cluster(rec: Seq<u8>) -> u32 {
    (spec_u16_le(rec.subrange(20, 22)) * 0x1_0000 + spec_u16_le(rec.subrange(26, 28))) as u32
}

/// Byte offset of the `i`-th UTF-16 code unit of a long-name fragment
/// record: runs of 5, 6 and 2 units at offsets 1, 14 and 28.
pub open spec fn spec_lfn_offset(i: int) -> int {
    if i < 5 {
        1 + 2 * i
    } else if i < 11 {
        14 + 2 * (i - 5)
    } else {
        28 + 2 * (i - 11)
    }
}

/// The 13 UTF-16 code units a long-name fragment record carries.
pub open spec fn spec_lfn_units(rec: Seq<u8>) -> Seq<u16> {
    Seq::new(13, |i: int| spec_u16_le(rec.subrange(spec_lfn_offset(i), spec_lfn_offset(i) + 2)))
}

/// The prefix of `us` before its first NUL code unit.
pub open spec fn spec_take_until_nul(us: Seq<u16>) -> Seq<u16>
    decreases us.len(),
{
    if us.len() == 0 || us[0] == 0 {
        Seq::empty()
    } else {
        seq![us[0]] + spec_take_until_nul(us.skip(1))
    }
}

/// The UTF-8 bytes one long-name fragment record contributes: its code
/// units up to the first NUL, re-encoded.
pub open spec fn spec_lfn_fragment(rec: Seq<u8>) -> Seq<u8> {
    spec_utf16_to_utf8(spec_take_until_nul(spec_lfn_units(rec)))
}

/// The prefix of `s` before its first NUL byte.
pub open spec fn spec_until_nul(s: Seq<u8>) -> Seq<u8>
    decreases s.len(),
{
    if s.len() == 0 || s[0] == 0 {
        Seq::empty()
    } else {
        seq![s[0]] + spec_until_nul(s.skip(1))
    }
}

/// The long-name accumulator after a fragment record: the fragment's bytes
/// are prepended when the combined name still fits the format's 255-byte
/// cap, else the fragment is dropped.
pub open spec fn spec_lfn_acc(rec: Seq<u8>, acc: Seq<u8>) -> Seq<u8> {
    let frag = spec_lfn_fragment(rec);
    if frag.len() + acc.len() <= 255 {
        frag + acc
    } else {
        acc
    }
}

/// One step of the directory decoder from cursor position (`cluster`,
/// `cursor`) with accumulated long-name bytes `acc` and a budget of `n`
/// records: the entry produced — kind, declared size, name bytes, starting
/// cluster — or `None` when the record sequence ends first (an incomplete
/// record, the end marker, or an exhausted budget), together with the
/// cursor position after the step and the budget left.
pub open spec fn spec_dir_next(
    data: Seq<u8>,
    info: Info,
    cluster: u32,
    cursor: int,
    acc: Seq<u8>,
    n: nat,
) -> (Option<(EntryType, u32, Seq<u8>, u32)>, (u32, int), nat)
    decreases n,
{
    if n == 0 {
        (None, (cluster, cursor), 0)
    } else {
        let rec = chain_read(data, info, cluster, cursor, 32);
        let st2 = chain_advance(data, info, cluster, cursor, 32);
        if rec.len() < 32 || rec[0] == ENTRY_LAST {
            (None, st2, (n - 1) as nat)
        } else if rec[0] == ENTRY_FREE {
            spec_dir_next(data, info, st2.0, st2.1, acc, (n - 1) as nat)
        } else if rec[11] & ATTR_MASK == ATTR_LONG_NAME {
            spec_dir_next(data, info, st2.0, st2.1, spec_lfn_acc(rec, acc), (n - 1) as nat)
        } else {
            let name = if acc.len() == 0 {
                spec_short_name(rec)
            } else {
                acc
            };
            (
                Some(
                    (
                        spec_attr_type(rec[11] & ATTR_MASK),
                        spec_record_size(rec),
                        name,
                        spec_record_first_cluster(rec),
                    ),
                ),
                st2,
                (n - 1) as nat,
            )
        }
    }
}

/// A decoding step spends budget: at least one record, never more than the
/// budget it was given.
pub proof fn lemma_dir_next_budget(
    data: Seq<u8>,
    info: Info,
    cluster: u32,
    cursor: int,
    acc: Seq<u8>,
    n: nat,
)
    ensures
        spec_dir_next(data, info, cluster, cursor, acc, n).2 <= n,
        n > 0 ==> spec_dir_next(data, info, cluster, cursor, acc, n).2 < n,
    decreases n,
{
    if n > 0 {
        let rec = chain_read(data, info, cluster, cursor, 32);
        let st2 = chain_advance(data, info, cluster, cursor, 32);
        if rec.len() < 32 || rec[0] == ENTRY_LAST {
        } else if rec[0] == ENTRY_FREE {
            lemma_dir_next_budget(data, info, st2.0, st2.1, acc, (n - 1) as nat);
        } else if rec[11] & ATTR_MASK == ATTR_LONG_NAME {
            lemma_dir_next_budget(data, info, st2.0, st2.1, spec_lfn_acc(rec, acc), (n - 1) as nat);
        }
    }
}

/// The first entry, in on-disk order, among the directory records at
/// (`cluster`, `cursor`) whose decoded name — cut at its first NUL byte —
/// equals `target`, scanning at most `n` records; `None` when the record
/// sequence ends without a match.
pub open spec fn spec_scan_dir(
    data: Seq<u8>,
    info: Info,
    cluster: u32,
    cursor: int,
    target: Seq<u8>,
    n: nat,
) -> Option<(EntryType, u32, Seq<u8>, u32)>
    decreases n,
        via spec_scan_dir_decreases
{
    let step = spec_dir_next(data, info, cluster, cursor, Seq::empty(), n);
    match step.0 {
        None => None,
        Some(m) => if spec_until_nul(m.2) == target {
            Some(m)
        } else {
            spec_scan_dir(data, info, step.1.0, step.1.1, target, step.2)
        },
    }
}

#[via_fn]
proof fn spec_scan_dir_decreases(
    data: Seq<u8>,
    info: Info,
    cluster: u32,
    cursor: int,
    target: Seq<u8>,
    n: nat,
) {
    lemma_dir_next_budget(data, info, cluster, cursor, Seq::empty(), n);
}

/// Synthesize the display name from a short record's 8.3 fields.
fn make_short_name(rec: &Vec<u8>) -> (r: Vec<u8>)
    requires
        rec@.len() >= 11,
    ensures
        r@ == spec_short_name(rec@),
        r@.len() <= 12,
{
    let mut name_len: usize = 8;
    while name_len > 0 && rec[name_len - 1] == 0x20
        invariant
            name_len <= 8,
            rec@.len() >= 11,
            spec_trim_spaces(rec@.subrange(0, 8)) == spec_trim_spaces(
                rec@.subrange(0, name_len as int),
            ),
        decreases name_len,
    {
        proof {
            let s = rec@.subrange(0, name_len as int);
            assert(s.last() == rec@[name_len - 1]);
            assert(s.drop_last() =~= rec@.subrange(0, name_len - 1));
        }
        name_len -= 1;
    }
    proof {
        assert(spec_trim_spaces(rec@.subrange(0, name_len as int)) =~= rec@.subrange(
            0,
            name_len as int,
        ));
    }
    let mut ext_len: usize = 11;
    while ext_len > 8 && rec[ext_len - 1] == 0x20
        invariant
            8 <= ext_len <= 11,
            rec@.len() >= 11,
            spec_trim_spaces(rec@.subrange(8, 11)) == spec_trim_spaces(
                rec@.subrange(8, ext_len as int),
            ),
        decreases ext_len,
    {
        proof {
            let s = rec@.subrange(8, ext_len as int);
            assert(s.last() == rec@[ext_len - 1]);
            assert(s.drop_last() =~= rec@.subrange(8, ext_len - 1));
        }
        ext_len -= 1;
    }
    proof {
        assert(spec_trim_spaces(rec@.subrange(8, ext_len as int)) =~= rec@.subrange(
            8,
            ext_len as int,
        ));
    }
    let mut out: Vec<u8> = Vec::new();
    let mut i: usize = 0;
    while i < name_len
        invariant
            i <= name_len <= 8,
            rec@.len() >= 11,
            out@ == rec@.subrange(0, i as int),
        decreases name_len - i,
    {
        out.push(rec[i]);
        assert(out@ =~= rec@.subrange(0, i + 1));
        i += 1;
    }
    if ext_len > 8 {
        out.push(0x2e);
        let mut j: usize = 8;
        while j < ext_len
            invariant
                8 <= j <= ext_len <= 11,
                rec@.len() >= 11,
                out@ == rec@.subrange(0, name_len as int) + seq![0x2eu8] + rec@.subrange(
                    8,
                    j as int,
                ),
            decreases ext_len - j,
        {
            out.push(rec[j]);
            assert(out@ =~= rec@.subrange(0, name_len as int) + seq![0x2eu8] + rec@.subrange(
                8,
                j + 1,
            ));
            j += 1;
        }
    }
    proof {
        assert(out@ =~= spec_short_name(rec@));
    }
    out
}

/// Decode one long-name fragment record into the UTF-8 bytes it carries.
fn lfn_fragment(rec: &Vec<u8>) -> (r: Vec<u8>)
    requires
        rec@.len() == 32,
    ensures
        r@ == spec_lfn_fragment(rec@),
{
    let mut units: Vec<u16> = Vec::new();
    let mut i: usize = 0;
    while i < 13
        invariant
            i <= 13,
            rec@.len() == 32,
            units@.len() == i,
            forall|j: int|
                0 <= j < i ==> units@[j] == spec_u16_le(
                    rec@.subrange(spec_lfn_offset(j), spec_lfn_offset(j) + 2),
                ),
        decreases 13 - i,
    {
        let off: usize = if i < 5 {
            1 + 2 * i
        } else if i < 11 {
            14 + 2 * (i - 5)
        } else {
            28 + 2 * (i - 11)
        };
        let lo = rec[off];
        let hi = rec[off + 1];
        units.push(lo as u16 + 0x100 * hi as u16);
        proof {
            assert(rec@.subrange(off as int, off + 2) =~= seq![rec@[off as int], rec@[off + 1]]);
        }
        i += 1;
    }
    proof {
        assert(units@ =~= spec_lfn_units(rec@));
    }
    let mut trunc: Vec<u16> = Vec::new();
    let mut k: usize = 0;
    proof {
        assert(units@.skip(0) =~= units@);
    }
    while k < units.len() && units[k] != 0
        invariant
            k <= units@.len(),
            spec_take_until_nul(units@) == trunc@ + spec_take_until_nul(units@.skip(k as int)),
        decreases units@.len() - k,
    {
        proof {
            assert(units@.skip(k as int)[0] == units@[k as int]);
            assert(units@.skip(k as int).skip(1) =~= units@.skip(k + 1));
        }
        trunc.push(units[k]);
        proof {
            assert(trunc@ + spec_take_until_nul(units@.skip(k + 1)) =~= trunc@.drop_last()
                + spec_take_until_nul(units@.skip(k as int)));
        }
        k += 1;
    }
    proof {
        if k < units@.len() {
            assert(units@.skip(k as int)[0] == units@[k as int]);
        }
        assert(trunc@ =~= spec_take_until_nul(units@));
    }
    utf16_to_utf8(&trunc)
}

/// What a directory record's 32 bytes stand for.
#[derive(Debug, Clone, Copy, PartialEq, Eq, Structural)]
pub enum EntryType {
    File,
    Directory,
    VolumeLabel,
}

/// One decoded directory entry, still tied to the volume it came from so
/// the file or directory it names can be opened directly.
pub struct Entry<'a, R> {
    pub(crate) fat: &'a Fat<R>,
    pub(crate) type_: EntryType,
    pub(crate) size: u32,
    pub(crate) name: Vec<u8>,
    pub(crate) first_cluster: u32,
}

impl<'a, R: Reader> Entry<'a, R> {
    /// The volume this entry was decoded from.
    pub closed spec fn spec_fat(&self) -> Fat<R> {
        *self.fat
    }

    pub closed spec fn spec_type(&self) -> EntryType {
        self.type_
    }

    pub closed spec fn spec_size(&self) -> u32 {
        self.size
    }

    /// The decoded name's bytes.
    pub closed spec fn spec_name(&self) -> Seq<u8> {
        self.name@
    }

    pub closed spec fn spec_first_cluster(&self) -> u32 {
        self.first_cluster
    }

    #[must_use]
    pub fn type_(&self) -> (r: EntryType)
        ensures
            r == self.spec_type(),
    {
        self.type_
    }

    /// The entry's name, cut at the first NUL byte.
    #[must_use]
    pub fn name(&self) -> (r: &[u8])
        ensures
            r@ == spec_until_nul(self.spec_name()),
    {
        let mut nul: usize = 0;
        proof {
            assert(self.name@.skip(0) =~= self.name@);
        }
        while nul < self.name.len() && self.name[nul] != 0
            invariant
                nul <= self.name@.len(),
                spec_until_nul(self.name@) == self.name@.subrange(0, nul as int)
                    + spec_until_nul(self.name@.skip(nul as int)),
            decreases self.name@.len() - nul,
        {
            proof {
                assert(self.name@.skip(nul as int)[0] == self.name@[nul as int]);
                assert(self.name@.skip(nul as int).skip(1) =~= self.name@.skip(nul + 1));
                assert(self.name@.subrange(0, nul + 1) =~= self.name@.subrange(0, nul as int)
                    + seq![self.name@[nul as int]]);
            }
            nul += 1;
        }
        proof {
            if nul < self.name@.len() {
                assert(self.name@.skip(nul as int)[0] == self.name@[nul as int]);
            }
            assert(spec_until_nul(self.name@) =~= self.name@.subrange(0, nul as int));
        }
        vstd::slice::slice_subrange(self.name.as_slice(), 0, nul)
    }

    #[must_use]
    pub fn size(&self) -> (r: u32)
        ensures
            r == self.spec_size(),
    {
        self.size
    }

    /// An unbounded cursor over this entry's cluster chain.
    #[must_use]
    pub fn as_raw(&self) -> (r: RawFile<'a, R>)
        ensures
            r.spec_fat() == self.spec_fat(),
            r.spec_first() == self.spec_first_cluster(),
            r.spec_current() == self.spec_first_cluster(),
            r.spec_cursor() == 0,
            r.wf(),
    {
        RawFile::at_cluster(self.fat, self.first_cluster)
    }

    /// Open this entry as a directory; anything but a directory entry is
    /// refused.
    pub fn read_dir(&self) -> (r: Result<Dir<'a, R>>)
        ensures
            r is Ok <==> self.spec_type() is Directory,
            r matches Ok(d) ==> {
                &&& d.wf()
                &&& !d.spec_fused()
                &&& d.spec_raw().spec_fat() == self.spec_fat()
                &&& d.spec_raw().spec_first() == self.spec_first_cluster()
                &&& d.spec_raw().spec_current() == self.spec_first_cluster()
                &&& d.spec_raw().spec_cursor() == 0
                &&& d.spec_budget() == MAX_DIR_RECORDS
            },
            r matches Err(e) ==> e is NotDirectory,
    {
        if let EntryType::Directory = self.type_ {
            let raw = RawFile::at_cluster(self.fat, self.first_cluster);
            Ok(Dir::from_raw(raw))
        } else {
            Err(Error::NotDirectory)
        }
    }

    /// Open this entry as a file bounded by its declared size; anything but
    /// a file entry is refused.
    pub fn open(&self) -> (r: Result<File<'a, R>>)
        ensures
            r is Ok <==> self.spec_type() is File,
            r matches Ok(f) ==> {
                &&& f.spec_remaining() == self.spec_size()
                &&& f.spec_raw().wf()
                &&& f.spec_raw().spec_fat() == self.spec_fat()
                &&& f.spec_raw().spec_first() == self.spec_first_cluster()
                &&& f.spec_raw().spec_current() == self.spec_first_cluster()
                &&& f.spec_raw().spec_cursor() == 0
            },
            r matches Err(e) ==> e is NotDirectory,
    {
        if let EntryType::File = self.type_ {
            let raw = RawFile::at_cluster(self.fat, self.first_cluster);
            Ok(File::from_raw(raw, self.size))
        } else {
            Err(Error::NotDirectory)
        }
    }
}

/// The synthetic entry path resolution starts from: the root directory,
/// with an empty name and no declared size.
pub(crate) fn root_entry<'a, R: Reader>(fat: &'a Fat<R>) -> (r: Entry<'a, R>)
    ensures
        r.spec_fat() == *fat,
        r.spec_type() == EntryType::Directory,
        r.spec_size() == 0,
        r.spec_name() == Seq::<u8>::empty(),
        r.spec_first_cluster() == fat.spec_info().root_cluster,
{
    let name: Vec<u8> = Vec::new();
    proof {
        assert(name@ =~= Seq::<u8>::empty());
    }
    Entry {
        fat,
        type_: EntryType::Directory,
        size: 0,
        name,
        first_cluster: fat.info().root_cluster,
    }
}

/// Lazy decoder over a directory's records.  Once the record sequence ends
/// — a short read, the end marker, or the record cap — the decoder is
/// fused: every further call yields nothing.
pub struct Dir<'a, R> {
    raw: RawFile<'a, R>,
    fused: bool,
    records_left: u32,
}

impl<'a, R: Reader> Dir<'a, R> {
    pub closed spec fn spec_raw(&self) -> RawFile<'a, R> {
        self.raw
    }

    pub closed spec fn spec_fused(&self) -> bool {
        self.fused
    }

    /// How many more records the decoder is willing to consume.
    pub closed spec fn spec_budget(&self) -> u32 {
        self.records_left
    }

    pub open spec fn wf(&self) -> bool {
        self.spec_raw().wf()
    }

    pub(crate) fn from_raw(raw: RawFile<'a, R>) -> (r: Dir<'a, R>)
        ensures
            r.spec_raw() == raw,
            !r.spec_fused(),
            r.spec_budget() == MAX_DIR_RECORDS,
    {
        Dir { raw, fused: false, records_left: MAX_DIR_RECORDS }
    }

    /// Decode the next entry, skipping free records and folding long-name
    /// fragment records into the name of the short record that follows
    /// them.
    ///
    /// Iteration follows `spec_dir_next` exactly: an entry handed out is
    /// the one the model decodes from the cursor's position with an empty
    /// accumulator — free records skipped with the accumulator kept,
    /// fragment names accumulated in reverse arrival order, the 8.3 name
    /// synthesized when no fragment bytes have accumulated — and, source
    /// failures aside, the decoder yields nothing only where the model's
    /// record sequence ends: an incomplete record, the end marker 0x00, or
    /// an exhausted record budget.
    pub fn next(&mut self) -> (r: Option<Result<Entry<'a, R>>>)
        requires
            old(self).wf(),
        ensures
            final(self).wf(),
            final(self).spec_raw().spec_fat() == old(self).spec_raw().spec_fat(),
            final(self).spec_raw().spec_first() == old(self).spec_raw().spec_first(),
            final(self).spec_budget() <= old(self).spec_budget(),
            r is Some ==> final(self).spec_budget() < old(self).spec_budget(),
            r is Some ==> !final(self).spec_fused(),
            old(self).spec_fused() ==> (r is None && *final(self) == *old(self)),
            r is None ==> final(self).spec_fused(),
            r matches Some(Ok(e)) ==> {
                &&& e.spec_fat() == old(self).spec_raw().spec_fat()
                &&& e.spec_name().len() <= 255
            },
            ({
                let data = old(self).spec_raw().spec_fat().spec_data();
                let info = old(self).spec_raw().spec_fat().spec_info();
                let step = spec_dir_next(
                    data,
                    info,
                    old(self).spec_raw().spec_current(),
                    old(self).spec_raw().spec_cursor(),
                    Seq::empty(),
                    old(self).spec_budget() as nat,
                );
                &&& (r matches Some(Ok(e)) ==> {
                    &&& step.0 == Some(
                        (e.spec_type(), e.spec_size(), e.spec_name(), e.spec_first_cluster()),
                    )
                    &&& (final(self).spec_raw().spec_current(), final(self).spec_raw().spec_cursor())
                        == step.1
                    &&& final(self).spec_budget() == step.2
                })
                &&& ((!old(self).spec_fused() && r is None) ==> step.0 is None)
            }),
    {
        if self.fused {
            return None;
        }
        let ghost fat0 = self.raw.spec_fat();
        let ghost data = fat0.spec_data();
        let ghost info = fat0.spec_info();
        let ghost n0 = old(self).spec_budget() as nat;
        let ghost step0 = spec_dir_next(
            data,
            info,
            self.raw.spec_current(),
            self.raw.spec_cursor(),
            Seq::<u8>::empty(),
            n0,
        );

        let mut long_name_buf = LongNameBuf::new();
        loop
            invariant
                !self.fused,
                self.raw.wf(),
                self.raw.spec_fat() == fat0,
                fat0 == old(self).spec_raw().spec_fat(),
                self.raw.spec_first() == old(self).spec_raw().spec_first(),
                self.records_left <= old(self).spec_budget(),
                data == fat0.spec_data(),
                info == fat0.spec_info(),
                long_name_buf.spec_data().len() <= 255,
                n0 == old(self).spec_budget() as nat,
                step0 == spec_dir_next(
                    data,
                    info,
                    old(self).spec_raw().spec_current(),
                    old(self).spec_raw().spec_cursor(),
                    Seq::<u8>::empty(),
                    n0,
                ),
                step0 == spec_dir_next(
                    data,
                    info,
                    self.raw.spec_current(),
                    self.raw.spec_cursor(),
                    long_name_buf.spec_data(),
                    self.records_left as nat,
                ),
                !old(self).spec_fused(),
            decreases self.records_left,
        {
            let ghost pre_c = self.raw.spec_current();
            let ghost pre_k = self.raw.spec_cursor();
            let ghost acc0 = long_name_buf.spec_data();
            let ghost n_here = self.records_left as nat;
            if self.records_left == 0 {
                self.fused = true;
                return None;
            }
            self.records_left = self.records_left - 1;
            let rec = match self.raw.read(DIR_ENTRY_SIZE) {
                Ok(v) => v,
                Err(e) => return Some(Err(e)),
            };
            proof {
                assert(rec@ == chain_read(data, info, pre_c, pre_k, 32));
                assert((self.raw.spec_current(), self.raw.spec_cursor()) == chain_advance(
                    data,
                    info,
                    pre_c,
                    pre_k,
                    32,
                ));
            }
            if rec.len() < DIR_ENTRY_SIZE {
                self.fused = true;
                proof {
                    assert(step0.0 is None);
                }
                return None;
            }
            let b0 = rec[0];
            if b0 == ENTRY_LAST {
                self.fused = true;
                proof {
                    assert(step0.0 is None);
                }
                return None;
            }
            if b0 == ENTRY_FREE {
                proof {
                    assert(step0 == spec_dir_next(
                        data,
                        info,
                        self.raw.spec_current(),
                        self.raw.spec_cursor(),
                        long_name_buf.spec_data(),
                        self.records_left as nat,
                    ));
                }
                continue;
            }
            let attr = rec[11] & ATTR_MASK;
            if attr == ATTR_LONG_NAME {
                let frag = lfn_fragment(&rec);
                if frag.len() <= 255 && long_name_buf.len() <= 255 - frag.len() {
                    long_name_buf.push_component(frag.as_slice());
                }
                proof {
                    assert(long_name_buf.spec_data() == spec_lfn_acc(rec@, acc0));
                    assert(step0 == spec_dir_next(
                        data,
                        info,
                        self.raw.spec_current(),
                        self.raw.spec_cursor(),
                        long_name_buf.spec_data(),
                        self.records_left as nat,
                    ));
                }
                continue;
            }
            let size = rec[28] as u32 + 0x100 * rec[29] as u32 + 0x1_0000 * rec[30] as u32
                + 0x100_0000 * rec[31] as u32;
            proof {
                assert(rec@.subrange(28, 32) =~= seq![rec@[28], rec@[29], rec@[30], rec@[31]]);
            }
            let type_ = if attr & ATTR_VOLUME_ID > 0 {
                EntryType::VolumeLabel
            } else if attr & ATTR_DIRECTORY > 0 {
                EntryType::Directory
            } else {
                EntryType::File
            };
            let name: Vec<u8> = if long_name_buf.is_empty() {
                make_short_name(&rec)
            } else {
                vstd::slice::slice_to_vec(long_name_buf.data())
            };
            let hi = rec[20] as u32 + 0x100 * rec[21] as u32;
            let lo = rec[26] as u32 + 0x100 * rec[27] as u32;
            proof {
                assert(rec@.subrange(20, 22) =~= seq![rec@[20], rec@[21]]);
                assert(rec@.subrange(26, 28) =~= seq![rec@[26], rec@[27]]);
            }
            let first_cluster = hi * 0x1_0000 + lo;
            proof {
                crate::raw_file::lemma_raw_file_parts(&self.raw);
                assert(step0 == spec_dir_next(data, info, pre_c, pre_k, acc0, n_here));
                assert(step0.0 == Some(
                    (spec_attr_type(rec@[11] & ATTR_MASK), spec_record_size(rec@), (if acc0.len()
                        == 0 {
                        spec_short_name(rec@)
                    } else {
                        acc0
                    }), spec_record_first_cluster(rec@)),
                ));
            }
            return Some(
                Ok(
                    Entry {
                        fat: self.raw.fat,
                        type_,
                        size,
                        name,
                        first_cluster,
                    },
                ),
            );
        }
    }
}

} // verus!
