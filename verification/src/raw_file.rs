use vstd::prelude::*;

use crate::error::Result;
use crate::info::Info;
use crate::read::Reader;
use crate::{is_chain_cluster, spec_fat_entry, Fat, END_OF_CHAIN, FIRST_DATA_CLUSTER};

verus! {

/// The bytes a cluster-chain cursor at (`cluster`, `cursor`) yields for a
/// request of `want` bytes from image `data`: it takes what is left of the
/// current cluster, follows the FAT link when the cluster is exhausted, and
/// stops early when the chain leaves the data-cluster range.
///
/// Offsets past the end of `data` make the matching physical read fail, so
/// this sequence describes successful reads only.
pub open spec fn chain_read(data: Seq<u8>, info: Info, cluster: u32, cursor: int, want: nat) -> Seq<
    u8,
>
    decreases want, (if cursor >= info.spec_bytes_per_cluster() { 1int } else { 0int }),
{
    let bpc = info.spec_bytes_per_cluster();
    if want == 0 || !is_chain_cluster(cluster) || bpc <= 0 || cursor < 0 {
        Seq::empty()
    } else if cursor >= bpc {
        chain_read(data, info, spec_fat_entry(data, info, cluster), 0, want)
    } else {
        let avail = (bpc - cursor) as nat;
        let take = if want < avail {
            want
        } else {
            avail
        };
        let off = info.spec_cluster_byte(cluster) + cursor;
        let chunk = data.subrange(off, off + take);
        if take == avail {
            chunk + chain_read(
                data,
                info,
                spec_fat_entry(data, info, cluster),
                0,
                (want - take) as nat,
            )
        } else {
            chunk
        }
    }
}

/// The cursor position after yielding `chain_read(data, info, cluster,
/// cursor, want)`: the cluster the cursor stands in and the byte offset
/// within it.  The FAT link is followed eagerly as soon as a cluster is
/// exhausted, as the read loop does.
pub open spec fn chain_advance(
    data: Seq<u8>,
    info: Info,
    cluster: u32,
    cursor: int,
    want: nat,
) -> (u32, int)
    decreases want, (if cursor >= info.spec_bytes_per_cluster() { 1int } else { 0int }),
{
    let bpc = info.spec_bytes_per_cluster();
    if want == 0 || !is_chain_cluster(cluster) || bpc <= 0 || cursor < 0 {
        (cluster, cursor)
    } else if cursor >= bpc {
        chain_advance(data, info, spec_fat_entry(data, info, cluster), 0, want)
    } else {
        let avail = (bpc - cursor) as nat;
        let take = if want < avail {
            want
        } else {
            avail
        };
        if take == avail {
            chain_advance(data, info, spec_fat_entry(data, info, cluster), 0, (want - take) as nat)
        } else {
            (cluster, cursor + take)
        }
    }
}

/// Every physical access behind `chain_read(data, info, cluster, cursor,
/// want)` stays inside `data`: each cluster chunk taken and each FAT entry
/// followed.  This is exactly the condition under which the matching
/// sequence of physical reads can succeed.
pub open spec fn chain_in_bounds(
    data: Seq<u8>,
    info: Info,
    cluster: u32,
    cursor: int,
    want: nat,
) -> bool
    decreases want, (if cursor >= info.spec_bytes_per_cluster() { 1int } else { 0int }),
{
    let bpc = info.spec_bytes_per_cluster();
    if want == 0 || !is_chain_cluster(cluster) || bpc <= 0 || cursor < 0 {
        true
    } else if cursor >= bpc {
        &&& info.spec_cluster_to_fat(cluster) + 4 <= data.len()
        &&& chain_in_bounds(data, info, spec_fat_entry(data, info, cluster), 0, want)
    } else {
        let avail = (bpc - cursor) as nat;
        let take = if want < avail {
            want
        } else {
            avail
        };
        let off = info.spec_cluster_byte(cluster) + cursor;
        &&& 0 <= off
        &&& off + take <= data.len()
        &&& (take == avail ==> info.spec_cluster_to_fat(cluster) + 4 <= data.len()
            && chain_in_bounds(
            data,
            info,
            spec_fat_entry(data, info, cluster),
            0,
            (want - take) as nat,
        ))
    }
}

/// Sequential reads compose: when a read of `a` bytes is not cut short by
/// the end of the chain, reading `a + b` bytes at once yields exactly that
/// read followed by a read of `b` bytes from the position the cursor
/// advanced to.  Hence a chain read back in chunks reassembles, byte for
/// byte, into the one long read.
pub proof fn lemma_chain_read_compose(
    data: Seq<u8>,
    info: Info,
    cluster: u32,
    cursor: int,
    a: nat,
    b: nat,
)
    requires
        chain_in_bounds(data, info, cluster, cursor, a),
        chain_read(data, info, cluster, cursor, a).len() == a,
        chain_in_bounds(
            data,
            info,
            chain_advance(data, info, cluster, cursor, a).0,
            chain_advance(data, info, cluster, cursor, a).1,
            b,
        ),
    ensures
        chain_read(data, info, cluster, cursor, a + b) == chain_read(
            data,
            info,
            cluster,
            cursor,
            a,
        ) + chain_read(
            data,
            info,
            chain_advance(data, info, cluster, cursor, a).0,
            chain_advance(data, info, cluster, cursor, a).1,
            b,
        ),
    decreases a, (if cursor >= info.spec_bytes_per_cluster() { 1int } else { 0int }),
{
    let bpc = info.spec_bytes_per_cluster();
    let (c2, k2) = chain_advance(data, info, cluster, cursor, a);
    if a == 0 {
        assert(chain_read(data, info, cluster, cursor, a) =~= Seq::<u8>::empty());
        assert(chain_read(data, info, cluster, cursor, a + b) =~= chain_read(
            data,
            info,
            cluster,
            cursor,
            a,
        ) + chain_read(data, info, c2, k2, b));
    } else if !is_chain_cluster(cluster) || bpc <= 0 || cursor < 0 {
        // A positive request that yielded `a` bytes cannot start here.
        assert(false);
    } else if cursor >= bpc {
        let next = spec_fat_entry(data, info, cluster);
        lemma_chain_read_compose(data, info, next, 0, a, b);
    } else {
        let avail = (bpc - cursor) as nat;
        let take = if a < avail {
            a
        } else {
            avail
        };
        let off = info.spec_cluster_byte(cluster) + cursor;
        if take == avail {
            let next = spec_fat_entry(data, info, cluster);
            assert(chain_read(data, info, cluster, cursor, a) == data.subrange(off, off + take)
                + chain_read(data, info, next, 0, (a - take) as nat));
            lemma_chain_read_compose(data, info, next, 0, (a - take) as nat, b);
            assert(chain_read(data, info, cluster, cursor, a + b) =~= chain_read(
                data,
                info,
                cluster,
                cursor,
                a,
            ) + chain_read(data, info, c2, k2, b));
        } else {
            // The request ends inside this cluster: take == a < avail.
            assert(c2 == cluster && k2 == cursor + a);
            if b == 0 {
                assert(chain_read(data, info, c2, k2, b) =~= Seq::<u8>::empty());
                assert(chain_read(data, info, cluster, cursor, a + b) =~= chain_read(
                    data,
                    info,
                    cluster,
                    cursor,
                    a,
                ) + chain_read(data, info, c2, k2, b));
            } else if a + b < avail {
                assert(chain_read(data, info, cluster, cursor, a + b) == data.subrange(
                    off,
                    off + a + b,
                ));
                assert(chain_read(data, info, c2, k2, b) == data.subrange(off + a, off + a + b));
                assert(data.subrange(off, off + a + b) =~= data.subrange(off, off + a)
                    + data.subrange(off + a, off + a + b));
            } else {
                let next = spec_fat_entry(data, info, cluster);
                assert(chain_read(data, info, cluster, cursor, a + b) == data.subrange(
                    off,
                    off + avail,
                ) + chain_read(data, info, next, 0, (a + b - avail) as nat));
                assert(chain_read(data, info, c2, k2, b) == data.subrange(off + a, off + avail)
                    + chain_read(data, info, next, 0, (b - (avail - a)) as nat));
                assert(data.subrange(off, off + avail) =~= data.subrange(off, off + a)
                    + data.subrange(off + a, off + avail));
                assert(chain_read(data, info, cluster, cursor, a + b) =~= chain_read(
                    data,
                    info,
                    cluster,
                    cursor,
                    a,
                ) + chain_read(data, info, c2, k2, b));
            }
        }
    }
}

/// How a cursor's spec-level views line up with its fields, for the
/// decoder modules built on top of it.
pub(crate) proof fn lemma_raw_file_parts<'a, R: Reader>(r: &RawFile<'a, R>)
    ensures
        r.spec_fat() == *r.fat,
        r.spec_first() == r.first_cluster,
        r.spec_current() == r.current_cluster,
        r.spec_cursor() == r.cursor_in_cluster as int,
{
}

/// Sequential reader over one cluster chain.
pub struct RawFile<'a, R> {
    pub(crate) fat: &'a Fat<R>,
    pub(crate) first_cluster: u32,
    pub(crate) current_cluster: u32,
    pub(crate) cursor_in_cluster: u32,
}

impl<'a, R: Reader> RawFile<'a, R> {
    /// The volume this cursor reads from.
    pub closed spec fn spec_fat(&self) -> Fat<R> {
        *self.fat
    }

    /// The cluster the chain starts at; fixed for the cursor's lifetime.
    pub closed spec fn spec_first(&self) -> u32 {
        self.first_cluster
    }

    /// The cluster the cursor currently stands in.
    pub closed spec fn spec_current(&self) -> u32 {
        self.current_cluster
    }

    /// The cursor's byte offset within the current cluster.
    pub closed spec fn spec_cursor(&self) -> int {
        self.cursor_in_cluster as int
    }

    /// The intra-cluster cursor never runs past the cluster size.
    pub open spec fn wf(&self) -> bool {
        self.spec_cursor() <= self.spec_fat().spec_info().spec_bytes_per_cluster()
            || self.spec_cursor() == 0
    }

    /// A cursor for the chain starting at `cluster`, positioned at its
    /// first byte.
    pub fn at_cluster(fat: &'a Fat<R>, cluster: u32) -> (r: RawFile<'a, R>)
        ensures
            r.spec_fat() == *fat,
            r.spec_first() == cluster,
            r.spec_current() == cluster,
            r.spec_cursor() == 0,
            r.wf(),
    {
        RawFile { fat, first_cluster: cluster, current_cluster: cluster, cursor_in_cluster: 0 }
    }

    /// Read up to `len` bytes from the chain.
    ///
    /// A successful read returns exactly the bytes the chain model yields
    /// for the cursor's position — the full `len` unless the chain ends
    /// first — and leaves the cursor where the model says.  A failed
    /// physical read or FAT lookup is surfaced as its error, even if some
    /// bytes had already been transferred.  An empty request, or a cursor
    /// already standing outside the data-cluster range, succeeds with no
    /// bytes and touches neither the source nor the table.
    pub fn read(&mut self, len: usize) -> (r: Result<Vec<u8>>)
        requires
            old(self).wf(),
        ensures
            final(self).spec_fat() == old(self).spec_fat(),
            final(self).spec_first() == old(self).spec_first(),
            final(self).wf(),
            (len == 0 || !is_chain_cluster(old(self).spec_current())) ==> (r matches Ok(v)
                && v@.len() == 0 && *final(self) == *old(self)),
            r matches Ok(v) ==> {
                let data = old(self).spec_fat().spec_data();
                let info = old(self).spec_fat().spec_info();
                &&& v@.len() <= len
                &&& v@ == chain_read(
                    data,
                    info,
                    old(self).spec_current(),
                    old(self).spec_cursor(),
                    len as nat,
                )
                &&& (final(self).spec_current(), final(self).spec_cursor()) == chain_advance(
                    data,
                    info,
                    old(self).spec_current(),
                    old(self).spec_cursor(),
                    len as nat,
                )
                &&& chain_in_bounds(
                    data,
                    info,
                    old(self).spec_current(),
                    old(self).spec_cursor(),
                    len as nat,
                )
            },
    {
        let ghost data = self.fat.spec_data();
        let ghost info = self.fat.spec_info();
        let ghost c0 = self.current_cluster;
        let ghost k0 = self.cursor_in_cluster as int;
        let ghost fat0 = *self.fat;

        let bpc: u32 = self.fat.info().bytes_per_cluster();
        let mut out: Vec<u8> = Vec::new();
        if bpc == 0 || len == 0 || self.current_cluster < FIRST_DATA_CLUSTER
            || self.current_cluster >= END_OF_CHAIN {
            return Ok(out);
        }
        while out.len() < len && self.current_cluster >= FIRST_DATA_CLUSTER
            && self.current_cluster < END_OF_CHAIN
            invariant
                *self.fat == fat0,
                fat0 == old(self).spec_fat(),
                len > 0,
                is_chain_cluster(old(self).spec_current()),
                data == fat0.spec_data(),
                info == fat0.spec_info(),
                self.first_cluster == old(self).first_cluster,
                bpc == info.spec_bytes_per_cluster(),
                bpc > 0,
                out@.len() <= len,
                self.cursor_in_cluster <= bpc,
                chain_read(data, info, c0, k0, len as nat) == out@ + chain_read(
                    data,
                    info,
                    self.current_cluster,
                    self.cursor_in_cluster as int,
                    (len - out@.len()) as nat,
                ),
                chain_advance(data, info, c0, k0, len as nat) == chain_advance(
                    data,
                    info,
                    self.current_cluster,
                    self.cursor_in_cluster as int,
                    (len - out@.len()) as nat,
                ),
                chain_in_bounds(data, info, c0, k0, len as nat) == chain_in_bounds(
                    data,
                    info,
                    self.current_cluster,
                    self.cursor_in_cluster as int,
                    (len - out@.len()) as nat,
                ),
            decreases
                    len - out@.len(),
                    (if self.cursor_in_cluster >= bpc {
                        1int
                    } else {
                        0int
                    }),
        {
            let cc = self.current_cluster;
            if self.cursor_in_cluster == bpc {
                // The previous transfer exhausted this cluster but its FAT
                // lookup failed; retry the link before reading on.
                let ghost pre_k = self.cursor_in_cluster as int;
                let ghost want = (len - out@.len()) as nat;
                let next = self.fat.next_cluster(cc)?;
                self.current_cluster = next;
                self.cursor_in_cluster = 0;
                proof {
                    assert(chain_in_bounds(data, info, cc, pre_k, want) == chain_in_bounds(
                        data,
                        info,
                        next,
                        0,
                        want,
                    ));
                }
                continue;
            }
            let inf = *self.fat.info();
            proof {
                assert((cc - FIRST_DATA_CLUSTER) * inf.sectors_per_cluster < 0x100_0000_0000)
                    by (nonlinear_arith)
                    requires
                        FIRST_DATA_CLUSTER <= cc <= 0xffff_ffff,
                        inf.sectors_per_cluster <= 0xff,
                        FIRST_DATA_CLUSTER == 2,
                ;
                assert((cc - FIRST_DATA_CLUSTER) * inf.sectors_per_cluster >= 0)
                    by (nonlinear_arith)
                    requires
                        FIRST_DATA_CLUSTER <= cc,
                ;
            }
            let sector: u64 = (cc as u64 - FIRST_DATA_CLUSTER as u64)
                * inf.sectors_per_cluster as u64 + inf.first_data_sector as u64;
            proof {
                assert(sector * inf.bytes_per_sector < 0x200_0000_0000_0000) by (nonlinear_arith)
                    requires
                        0 <= sector < 0x200_0000_0000,
                        inf.bytes_per_sector <= 0xffff,
                ;
            }
            let byte_off: u64 = sector * inf.bytes_per_sector as u64
                + self.cursor_in_cluster as u64;
            proof {
                assert(byte_off == info.spec_cluster_byte(cc) + self.cursor_in_cluster) by {
                    assert(sector == info.spec_first_sector_of_cluster(cc));
                }
            }
            let remaining_in_cluster: u32 = bpc - self.cursor_in_cluster;
            let remaining_in_out: usize = len - out.len();
            let to_read: usize = if remaining_in_out < remaining_in_cluster as usize {
                remaining_in_out
            } else {
                remaining_in_cluster as usize
            };
            let mut chunk = self.fat.reader().read_exact_at(byte_off, to_read)?;
            let ghost pre_cur = self.current_cluster;
            let ghost pre_k = self.cursor_in_cluster as int;
            let ghost pre_out = out@;
            let ghost want = (len - out@.len()) as nat;
            out.append(&mut chunk);
            self.cursor_in_cluster = self.cursor_in_cluster + to_read as u32;
            if self.cursor_in_cluster == bpc {
                let next = self.fat.next_cluster(cc)?;
                self.current_cluster = next;
                self.cursor_in_cluster = 0;
            }
            proof {
                let taken = data.subrange(
                    info.spec_cluster_byte(pre_cur) + pre_k,
                    info.spec_cluster_byte(pre_cur) + pre_k + to_read,
                );
                if to_read == remaining_in_cluster {
                    assert(chain_read(data, info, pre_cur, pre_k, want) == taken + chain_read(
                        data,
                        info,
                        spec_fat_entry(data, info, pre_cur),
                        0,
                        (want - to_read) as nat,
                    ));
                    assert(chain_advance(data, info, pre_cur, pre_k, want) == chain_advance(
                        data,
                        info,
                        spec_fat_entry(data, info, pre_cur),
                        0,
                        (want - to_read) as nat,
                    ));
                    assert(chain_in_bounds(data, info, pre_cur, pre_k, want) == chain_in_bounds(
                        data,
                        info,
                        spec_fat_entry(data, info, pre_cur),
                        0,
                        (want - to_read) as nat,
                    ));
                } else {
                    assert(chain_read(data, info, pre_cur, pre_k, want) == taken);
                    assert(chain_advance(data, info, pre_cur, pre_k, want) == (
                    pre_cur,
                    pre_k + to_read,
                    ));
                    assert(chain_read(
                        data,
                        info,
                        self.current_cluster,
                        self.cursor_in_cluster as int,
                        (len - out@.len()) as nat,
                    ) =~= Seq::<u8>::empty());
                    assert(chain_in_bounds(data, info, pre_cur, pre_k, want));
                    assert(chain_in_bounds(
                        data,
                        info,
                        self.current_cluster,
                        self.cursor_in_cluster as int,
                        (len - out@.len()) as nat,
                    ));
                }
                assert(out@ == pre_out + taken);
                assert(chain_read(data, info, c0, k0, len as nat) =~= out@ + chain_read(
                    data,
                    info,
                    self.current_cluster,
                    self.cursor_in_cluster as int,
                    (len - out@.len()) as nat,
                ));
            }
        }
        proof {
            assert(chain_read(
                data,
                info,
                self.current_cluster,
                self.cursor_in_cluster as int,
                (len - out@.len()) as nat,
            ) =~= Seq::<u8>::empty());
            assert(chain_advance(
                data,
                info,
                self.current_cluster,
                self.cursor_in_cluster as int,
                (len - out@.len()) as nat,
            ) == (self.current_cluster, self.cursor_in_cluster as int));
            assert(out@ =~= chain_read(data, info, c0, k0, len as nat));
            assert(chain_in_bounds(
                data,
                info,
                self.current_cluster,
                self.cursor_in_cluster as int,
                (len - out@.len()) as nat,
            ));
        }
        Ok(out)
    }

    /// Reset the cursor to the start of the chain without any physical
    /// read.
    pub fn rewind(&mut self)
        ensures
            final(self).spec_fat() == old(self).spec_fat(),
            final(self).spec_first() == old(self).spec_first(),
            final(self).spec_current() == old(self).spec_first(),
            final(self).spec_cursor() == 0,
            final(self).wf(),
    {
        self.current_cluster = self.first_cluster;
        self.cursor_in_cluster = 0;
    }
}

/// Two cursors over the same image that were both rewound to the same first
/// cluster see the same bytes: what a successful read returns after
/// `rewind` depends only on the image, the geometry, and the chain's first
/// cluster, so a rewind followed by a second full read reproduces the first
/// one.
pub proof fn lemma_rewound_reads_agree<R: Reader>(a: RawFile<R>, b: RawFile<R>, len: nat)
    requires
        a.spec_fat() == b.spec_fat(),
        a.spec_first() == b.spec_first(),
        a.spec_current() == a.spec_first(),
        a.spec_cursor() == 0,
        b.spec_current() == b.spec_first(),
        b.spec_cursor() == 0,
    ensures
        chain_read(
            a.spec_fat().spec_data(),
            a.spec_fat().spec_info(),
            a.spec_current(),
            a.spec_cursor(),
            len,
        ) == chain_read(
            b.spec_fat().spec_data(),
            b.spec_fat().spec_info(),
            b.spec_current(),
            b.spec_cursor(),
            len,
        ),
{
}

} // verus!
