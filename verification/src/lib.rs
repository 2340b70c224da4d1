//! Read-only decoder for the FAT32 on-disk format: boot-sector geometry,
//! cluster-chain traversal through the file-allocation table, directory
//! decoding with long-name reconstruction, and path resolution, all over a
//! caller-supplied random-access byte source.

use vstd::prelude::*;

pub mod dir;
pub mod error;
pub mod file;
pub mod info;
pub mod int_ext;
pub mod long_name;
pub mod raw_file;
pub mod read;

pub use crate::dir::{Dir, Entry, EntryType};
pub use crate::error::{Error, Result};
pub use crate::file::File;
pub use crate::info::Info;
pub use crate::raw_file::RawFile;
pub use crate::read::{Reader, SliceReader};

use crate::dir::{spec_dir_next, spec_scan_dir, spec_until_nul, MAX_DIR_RECORDS};
use crate::read::{read_u32_at, spec_u32_le};

verus! {

pub const FAT_ENTRY_SIZE: u32 = 4;
pub const FAT_ENTRY_MASK: u32 = 0x0fff_ffff;
pub const DIR_ENTRY_SIZE: usize = 32;
pub const FIRST_DATA_CLUSTER: u32 = 2;
pub const END_OF_CHAIN: u32 = 0x0fff_fff8;

pub const ATTR_READ_ONLY: u8 = 0x01;
pub const ATTR_HIDDEN: u8 = 0x02;
pub const ATTR_SYSTEM: u8 = 0x04;
pub const ATTR_VOLUME_ID: u8 = 0x08;
pub const ATTR_DIRECTORY: u8 = 0x10;
pub const ATTR_LONG_NAME: u8 = ATTR_READ_ONLY | ATTR_HIDDEN | ATTR_SYSTEM | ATTR_VOLUME_ID;
/// The attribute byte's two reserved high bits, masked off before any test.
pub const ATTR_RESERVED: u8 = 0xc0;
pub const ATTR_MASK: u8 = 0x3f;

/// A cluster number that may carry data: at least 2 (clusters 0 and 1 are
/// reserved) and below the end-of-chain sentinel range.
pub open spec fn is_chain_cluster(cluster: u32) -> bool {
    FIRST_DATA_CLUSTER <= cluster < END_OF_CHAIN
}

/// The FAT entry of `cluster` in image `data`: the little-endian 32-bit
/// value at the cluster's table offset, masked to its low 28 bits.
pub open spec fn spec_fat_entry(data: Seq<u8>, info: Info, cluster: u32) -> u32 {
    spec_u32_le(
        data.subrange(info.spec_cluster_to_fat(cluster), info.spec_cluster_to_fat(cluster) + 4),
    ) & FAT_ENTRY_MASK
}

/// Where the path component starting at `i` ends: the first position at
/// or after `i` holding a separator, or the path's end.
pub open spec fn spec_component_end(path: Seq<u8>, i: int) -> int
    decreases path.len() - i,
{
    if i >= path.len() || path[i] == 0x2fu8 {
        i
    } else {
        spec_component_end(path, i + 1)
    }
}

/// A component runs to its end, never past the path; it is non-empty
/// wherever it starts on a non-separator byte.
pub proof fn lemma_component_end_bounds(path: Seq<u8>, i: int)
    requires
        i <= path.len(),
    ensures
        i <= spec_component_end(path, i) <= path.len(),
        (i < path.len() && path[i] != 0x2fu8) ==> i < spec_component_end(path, i),
    decreases path.len() - i,
{
    if i < path.len() && path[i] != 0x2fu8 {
        lemma_component_end_bounds(path, i + 1);
    }
}

/// The synthetic entry path resolution starts from: the root directory,
/// with no name and no declared size.
pub open spec fn spec_root_entry_model(info: Info) -> (EntryType, u32, Seq<u8>, u32) {
    (EntryType::Directory, 0u32, Seq::empty(), info.root_cluster)
}

/// Path resolution over the decoded model, from position `i` in `path`
/// and the entry `cur` (kind, declared size, name bytes, starting
/// cluster): separators are skipped, and each component descends through
/// `cur` — which must be a directory, else `NotDirectory` — to the first
/// entry of its record sequence whose decoded name equals the component
/// byte for byte, or `NotFound` when none does.
pub open spec fn spec_resolve(
    data: Seq<u8>,
    info: Info,
    path: Seq<u8>,
    i: int,
    cur: (EntryType, u32, Seq<u8>, u32),
) -> Result<(EntryType, u32, Seq<u8>, u32), Error>
    decreases path.len() - i,
        via spec_resolve_decreases
{
    if i >= path.len() {
        Ok(cur)
    } else if path[i] == 0x2fu8 {
        spec_resolve(data, info, path, i + 1, cur)
    } else {
        let j = spec_component_end(path, i);
        if !(cur.0 is Directory) {
            Err(Error::NotDirectory)
        } else {
            match spec_scan_dir(data, info, cur.3, 0, path.subrange(i, j), MAX_DIR_RECORDS as nat) {
                None => Err(Error::NotFound),
                Some(m) => spec_resolve(data, info, path, j, m),
            }
        }
    }
}

#[via_fn]
proof fn spec_resolve_decreases(
    data: Seq<u8>,
    info: Info,
    path: Seq<u8>,
    i: int,
    cur: (EntryType, u32, Seq<u8>, u32),
) {
    if i < path.len() && path[i] != 0x2fu8 {
        lemma_component_end_bounds(path, i);
    }
}

/// The non-empty components of `path` from position `i` on, in order:
/// separators only delimit, so repeated, leading or trailing separators
/// add nothing.
pub open spec fn spec_components(path: Seq<u8>, i: int) -> Seq<Seq<u8>>
    decreases path.len() - i,
        via spec_components_decreases
{
    if i >= path.len() {
        Seq::empty()
    } else if path[i] == 0x2fu8 {
        spec_components(path, i + 1)
    } else {
        let j = spec_component_end(path, i);
        seq![path.subrange(i, j)] + spec_components(path, j)
    }
}

#[via_fn]
proof fn spec_components_decreases(path: Seq<u8>, i: int) {
    if i < path.len() && path[i] != 0x2fu8 {
        lemma_component_end_bounds(path, i);
    }
}

/// Path resolution over a component sequence: each component in turn
/// descends through the current entry, which must be a directory, to the
/// first record-sequence entry whose decoded name equals it.
pub open spec fn spec_resolve_components(
    data: Seq<u8>,
    info: Info,
    comps: Seq<Seq<u8>>,
    cur: (EntryType, u32, Seq<u8>, u32),
) -> Result<(EntryType, u32, Seq<u8>, u32), Error>
    decreases comps.len(),
{
    if comps.len() == 0 {
        Ok(cur)
    } else if !(cur.0 is Directory) {
        Err(Error::NotDirectory)
    } else {
        match spec_scan_dir(data, info, cur.3, 0, comps[0], MAX_DIR_RECORDS as nat) {
            None => Err(Error::NotFound),
            Some(m) => spec_resolve_components(data, info, comps.skip(1), m),
        }
    }
}

/// Resolution sees only a path's non-empty components: resolving from
/// position `i` equals resolving the component sequence from `i` on.
pub proof fn lemma_resolve_by_components(
    data: Seq<u8>,
    info: Info,
    path: Seq<u8>,
    i: int,
    cur: (EntryType, u32, Seq<u8>, u32),
)
    requires
        0 <= i <= path.len(),
    ensures
        spec_resolve(data, info, path, i, cur) == spec_resolve_components(
            data,
            info,
            spec_components(path, i),
            cur,
        ),
    decreases path.len() - i,
{
    if i >= path.len() {
    } else if path[i] == 0x2fu8 {
        lemma_resolve_by_components(data, info, path, i + 1, cur);
    } else {
        lemma_component_end_bounds(path, i);
        let j = spec_component_end(path, i);
        let comps = spec_components(path, i);
        assert(comps == seq![path.subrange(i, j)] + spec_components(path, j));
        assert(comps[0] == path.subrange(i, j));
        assert(comps.skip(1) =~= spec_components(path, j));
        if cur.0 is Directory {
            match spec_scan_dir(data, info, cur.3, 0, path.subrange(i, j), MAX_DIR_RECORDS as nat) {
                None => {},
                Some(m) => {
                    lemma_resolve_by_components(data, info, path, j, m);
                },
            }
        }
    }
}

/// Two spellings of a path with the same non-empty components — however
/// the separators are repeated or placed — resolve identically.
pub proof fn lemma_resolve_same_components(
    data: Seq<u8>,
    info: Info,
    p1: Seq<u8>,
    p2: Seq<u8>,
    cur: (EntryType, u32, Seq<u8>, u32),
)
    requires
        spec_components(p1, 0) == spec_components(p2, 0),
    ensures
        spec_resolve(data, info, p1, 0, cur) == spec_resolve(data, info, p2, 0, cur),
{
    lemma_resolve_by_components(data, info, p1, 0, cur);
    lemma_resolve_by_components(data, info, p2, 0, cur);
}

/// An opened FAT32 volume: the byte source plus the geometry decoded from
/// its boot sector.
#[derive(Debug, Clone)]
pub struct Fat<R> {
    inner: R,
    info: Info,
}

impl<R: Reader> Fat<R> {
    /// The partition geometry this volume was opened with.
    pub closed spec fn spec_info(&self) -> Info {
        self.info
    }

    /// The bytes of the underlying image, as the byte source models them.
    pub closed spec fn spec_data(&self) -> Seq<u8> {
        self.inner.data()
    }

    /// Open a volume: decode the boot sector and keep the source.
    pub fn new(inner: R) -> (r: Result<Self>)
        ensures
            r matches Ok(fat) ==> {
                &&& fat.spec_data() == inner.data()
                &&& crate::info::info_matches_image(fat.spec_info(), inner.data())
            },
    {
        let info = Info::read(&inner)?;
        Ok(Self { inner, info })
    }

    pub(crate) fn reader(&self) -> (r: &R)
        ensures
            r.data() == self.spec_data(),
    {
        &self.inner
    }

    pub(crate) fn info(&self) -> (r: &Info)
        ensures
            *r == self.spec_info(),
    {
        &self.info
    }

    /// A chain cursor over the whole volume, starting at `cluster`.
    pub(crate) fn file_at_cluster(&self, cluster: u32) -> (r: RawFile<'_, R>)
        ensures
            r.spec_fat() == *self,
            r.spec_first() == cluster,
            r.spec_current() == cluster,
            r.spec_cursor() == 0,
            r.wf(),
    {
        RawFile::at_cluster(self, cluster)
    }

    /// A decoder over the root directory.
    pub fn root(&self) -> (r: Dir<'_, R>)
        ensures
            r.wf(),
            !r.spec_fused(),
            r.spec_raw().spec_fat() == *self,
            r.spec_raw().spec_first() == self.spec_info().root_cluster,
            r.spec_raw().spec_current() == self.spec_info().root_cluster,
            r.spec_raw().spec_cursor() == 0,
            r.spec_budget() == crate::dir::MAX_DIR_RECORDS,
    {
        Dir::from_raw(self.file_at_cluster(self.info.root_cluster))
    }

    /// Resolve `path` to the entry it names.
    ///
    /// A leading separator is optional and empty components are discarded,
    /// so repeated or trailing separators change nothing.  Resolution
    /// follows `spec_resolve`: it starts from a synthetic root-directory
    /// entry — a path without any component resolves to exactly that — and
    /// descends through each component to the first entry, in on-disk
    /// order, of the current directory whose decoded name matches the
    /// component byte for byte.  Descending through a non-directory fails
    /// with `NotDirectory`, an exhausted scan with `NotFound`, and a
    /// record the source cannot read fails with the source's error as it
    /// occurs.
    pub fn find_raw(&self, path: &[u8]) -> (r: Result<Entry<'_, R>>)
        ensures
            r matches Ok(e) ==> {
                &&& e.spec_fat() == *self
                &&& spec_resolve(
                    self.spec_data(),
                    self.spec_info(),
                    path@,
                    0,
                    spec_root_entry_model(self.spec_info()),
                ) == Ok::<(EntryType, u32, Seq<u8>, u32), Error>(
                    (e.spec_type(), e.spec_size(), e.spec_name(), e.spec_first_cluster()),
                )
            },
            (forall|k: int| 0 <= k < path@.len() ==> path@[k] == 0x2fu8) ==> (r matches Ok(e)
                && e.spec_type() is Directory && e.spec_size() == 0 && e.spec_name().len() == 0
                && e.spec_first_cluster() == self.spec_info().root_cluster),
    {
        let ghost data = self.spec_data();
        let ghost info = self.spec_info();
        let ghost root_m = spec_root_entry_model(self.spec_info());
        let ghost trivial = forall|k: int| 0 <= k < path@.len() ==> path@[k] == 0x2fu8;
        let mut entry = crate::dir::root_entry(self);
        let mut i: usize = 0;
        while i < path.len()
            invariant
                i <= path@.len(),
                entry.spec_fat() == *self,
                data == self.spec_data(),
                info == self.spec_info(),
                root_m == spec_root_entry_model(self.spec_info()),
                spec_resolve(data, info, path@, 0, root_m) == spec_resolve(
                    data,
                    info,
                    path@,
                    i as int,
                    (
                        entry.spec_type(),
                        entry.spec_size(),
                        entry.spec_name(),
                        entry.spec_first_cluster(),
                    ),
                ),
                trivial == (forall|k: int| 0 <= k < path@.len() ==> path@[k] == 0x2fu8),
                trivial ==> (entry.spec_type() is Directory && entry.spec_size() == 0
                    && entry.spec_name().len() == 0 && entry.spec_first_cluster()
                    == self.spec_info().root_cluster),
            decreases path@.len() - i,
        {
            let ghost entry_m = (
                entry.spec_type(),
                entry.spec_size(),
                entry.spec_name(),
                entry.spec_first_cluster(),
            );
            if *vstd::slice::slice_index_get(path, i) == 0x2f {
                proof {
                    assert(spec_resolve(data, info, path@, i as int, entry_m) == spec_resolve(
                        data,
                        info,
                        path@,
                        i + 1,
                        entry_m,
                    ));
                }
                i += 1;
                continue;
            }
            let mut j: usize = i;
            while j < path.len() && *vstd::slice::slice_index_get(path, j) != 0x2f
                invariant
                    i <= j <= path@.len(),
                    i < path@.len(),
                    path@[i as int] != 0x2fu8,
                    spec_component_end(path@, i as int) == spec_component_end(path@, j as int),
                decreases path@.len() - j,
            {
                j += 1;
            }
            proof {
                assert(spec_component_end(path@, j as int) == j);
            }
            let component = vstd::slice::slice_subrange(path, i, j);
            let ghost comp_seq = path@.subrange(i as int, j as int);
            let mut dir = entry.read_dir()?;
            let ghost scan0 = spec_scan_dir(
                data,
                info,
                entry.spec_first_cluster(),
                0,
                comp_seq,
                MAX_DIR_RECORDS as nat,
            );
            let mut found: Option<Entry<'_, R>> = None;
            loop
                invariant_except_break
                    dir.wf(),
                    !dir.spec_fused(),
                    scan0 == spec_scan_dir(
                        data,
                        info,
                        dir.spec_raw().spec_current(),
                        dir.spec_raw().spec_cursor(),
                        comp_seq,
                        dir.spec_budget() as nat,
                    ),
                invariant
                    dir.spec_raw().spec_fat() == *self,
                    data == self.spec_data(),
                    info == self.spec_info(),
                    component@ == comp_seq,
                    found matches Some(e2) ==> (e2.spec_fat() == *self && scan0 == Some(
                        (e2.spec_type(), e2.spec_size(), e2.spec_name(), e2.spec_first_cluster()),
                    )),
                    !(forall|k: int| 0 <= k < path@.len() ==> path@[k] == 0x2fu8),
                decreases dir.spec_budget(),
            {
                let ghost d_c = dir.spec_raw().spec_current();
                let ghost d_k = dir.spec_raw().spec_cursor();
                let ghost d_n = dir.spec_budget() as nat;
                let ghost dstep = spec_dir_next(data, info, d_c, d_k, Seq::<u8>::empty(), d_n);
                match dir.next() {
                    None => return Err(Error::NotFound),
                    Some(Err(e)) => return Err(e),
                    Some(Ok(child)) => {
                        let ghost child_m = (
                            child.spec_type(),
                            child.spec_size(),
                            child.spec_name(),
                            child.spec_first_cluster(),
                        );
                        if crate::read::bytes_eq(child.name(), component) {
                            proof {
                                assert(dstep.0 == Some(child_m));
                                assert(spec_until_nul(child_m.2) == comp_seq);
                                assert(scan0 == Some(child_m));
                            }
                            found = Some(child);
                            break;
                        }
                        proof {
                            assert(dstep.0 == Some(child_m));
                            assert(spec_until_nul(child_m.2) != comp_seq);
                            assert(scan0 == spec_scan_dir(
                                data,
                                info,
                                dir.spec_raw().spec_current(),
                                dir.spec_raw().spec_cursor(),
                                comp_seq,
                                dir.spec_budget() as nat,
                            ));
                        }
                    },
                }
            }
            match found {
                Some(child) => {
                    proof {
                        assert(spec_resolve(data, info, path@, i as int, entry_m) == spec_resolve(
                            data,
                            info,
                            path@,
                            j as int,
                            (
                                child.spec_type(),
                                child.spec_size(),
                                child.spec_name(),
                                child.spec_first_cluster(),
                            ),
                        ));
                    }
                    entry = child;
                },
                None => {
                    return Err(Error::NotFound);
                },
            }
            i = j;
        }
        Ok(entry)
    }

    /// Resolve `path` and open it as a directory: the returned decoder
    /// starts at the first cluster of the entry the path resolves to,
    /// which is a directory.
    pub fn read_dir(&self, path: &[u8]) -> (r: Result<Dir<'_, R>>)
        ensures
            r matches Ok(d) ==> {
                let res = spec_resolve(
                    self.spec_data(),
                    self.spec_info(),
                    path@,
                    0,
                    spec_root_entry_model(self.spec_info()),
                );
                &&& d.wf()
                &&& !d.spec_fused()
                &&& d.spec_raw().spec_fat() == *self
                &&& d.spec_raw().spec_cursor() == 0
                &&& d.spec_budget() == MAX_DIR_RECORDS
                &&& res matches Ok(m) && m.0 is Directory && d.spec_raw().spec_first() == m.3
                    && d.spec_raw().spec_current() == m.3
            },
    {
        self.find_raw(path)?.read_dir()
    }

    /// Resolve `path` and open it as a size-bounded file: the returned
    /// handle reads the chain starting at the first cluster of the entry
    /// the path resolves to, which is a file, bounded by its declared
    /// size.
    pub fn open(&self, path: &[u8]) -> (r: Result<File<'_, R>>)
        ensures
            r matches Ok(f) ==> {
                let res = spec_resolve(
                    self.spec_data(),
                    self.spec_info(),
                    path@,
                    0,
                    spec_root_entry_model(self.spec_info()),
                );
                &&& f.spec_raw().wf()
                &&& f.spec_raw().spec_fat() == *self
                &&& f.spec_raw().spec_cursor() == 0
                &&& res matches Ok(m) && m.0 is File && f.spec_remaining() == m.1 && f.spec_raw(
                ).spec_first() == m.3 && f.spec_raw().spec_current() == m.3
            },
    {
        self.find_raw(path)?.open()
    }

    /// Follow one link of the file-allocation table: the masked 4-byte entry
    /// of `cluster`.
    pub(crate) fn next_cluster(&self, cluster: u32) -> (r: Result<u32>)
        ensures
            r matches Ok(nc) ==> {
                &&& self.spec_info().spec_cluster_to_fat(cluster) + 4 <= self.spec_data().len()
                &&& nc == spec_fat_entry(self.spec_data(), self.spec_info(), cluster)
            },
    {
        let offset = self.info.cluster_to_fat(cluster);
        let next: u32 = read_u32_at(&self.inner, offset)?;
        Ok(next & FAT_ENTRY_MASK)
    }
}

} // verus!
