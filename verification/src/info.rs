use vstd::prelude::*;

use crate::error::{Error, Result};
use crate::read::{read_u16_at, read_u32_at, read_u8_at, spec_u16_le, spec_u32_le, Reader};
use crate::{FAT_ENTRY_SIZE, FIRST_DATA_CLUSTER};

verus! {

/// Fixed partition parameters, decoded once from the boot sector.
#[derive(Debug, Clone, Copy)]
pub struct Info {
    pub bytes_per_sector: u16,
    pub sectors_per_cluster: u8,
    pub reserved_sector_count: u16,
    pub first_data_sector: u32,
    pub root_cluster: u32,
}

/// `info` is exactly the geometry a FAT32 boot sector at the start of image
/// `d` describes: every field is the little-endian value at its fixed
/// offset, both legacy fields are zero, and the first data sector is the
/// reserved area plus the FAT tables.
pub open spec fn info_matches_image(info: Info, d: Seq<u8>) -> bool {
    &&& d.len() >= 48
    &&& info.bytes_per_sector == spec_u16_le(d.subrange(11, 13))
    &&& info.sectors_per_cluster == d[13]
    &&& info.reserved_sector_count == spec_u16_le(d.subrange(14, 16))
    &&& spec_u16_le(d.subrange(17, 19)) == 0
    &&& spec_u16_le(d.subrange(22, 24)) == 0
    &&& info.first_data_sector == spec_u16_le(d.subrange(14, 16)) + d[16] * spec_u32_le(
        d.subrange(36, 40),
    )
    &&& info.root_cluster == spec_u32_le(d.subrange(44, 48))
}

impl Info {
    /// Byte offset of a cluster's 4-byte entry in the first FAT table.
    pub open spec fn spec_cluster_to_fat(self, cluster: u32) -> int {
        self.reserved_sector_count * self.bytes_per_sector + cluster * FAT_ENTRY_SIZE
    }

    /// First sector of a data cluster; cluster numbering starts at 2.
    pub open spec fn spec_first_sector_of_cluster(self, cluster: u32) -> int {
        (cluster - FIRST_DATA_CLUSTER) * self.sectors_per_cluster + self.first_data_sector
    }

    /// Size of one cluster in bytes.
    pub open spec fn spec_bytes_per_cluster(self) -> int {
        self.sectors_per_cluster * self.bytes_per_sector
    }

    /// Absolute byte offset where a data cluster's contents start.
    pub open spec fn spec_cluster_byte(self, cluster: u32) -> int {
        self.spec_first_sector_of_cluster(cluster) * self.bytes_per_sector
    }

    pub fn cluster_to_fat(&self, cluster: u32) -> (r: u64)
        ensures
            r == self.spec_cluster_to_fat(cluster),
    {
        proof {
            assert(self.reserved_sector_count * self.bytes_per_sector < 0x1_0000_0000)
                by (nonlinear_arith)
                requires
                    self.reserved_sector_count <= 0xffff,
                    self.bytes_per_sector <= 0xffff,
            ;
            assert(cluster * FAT_ENTRY_SIZE < 0x4_0000_0000) by (nonlinear_arith)
                requires
                    cluster <= 0xffff_ffff,
                    FAT_ENTRY_SIZE == 4,
            ;
        }
        let disk_offset = cluster as u64 * FAT_ENTRY_SIZE as u64;
        self.reserved_sector_count as u64 * self.bytes_per_sector as u64 + disk_offset
    }

    pub fn first_sector_of_cluster(&self, cluster: u32) -> (r: u32)
        requires
            cluster >= FIRST_DATA_CLUSTER,
            self.spec_first_sector_of_cluster(cluster) <= u32::MAX,
        ensures
            r == self.spec_first_sector_of_cluster(cluster),
    {
        proof {
            assert((cluster - FIRST_DATA_CLUSTER) * self.sectors_per_cluster >= 0)
                by (nonlinear_arith)
                requires
                    cluster >= FIRST_DATA_CLUSTER,
                    FIRST_DATA_CLUSTER == 2,
            ;
        }
        (cluster - FIRST_DATA_CLUSTER) * self.sectors_per_cluster as u32 + self.first_data_sector
    }

    pub fn bytes_per_cluster(&self) -> (r: u32)
        ensures
            r == self.spec_bytes_per_cluster(),
    {
        proof {
            assert(self.sectors_per_cluster * self.bytes_per_sector < 0x100_0000)
                by (nonlinear_arith)
                requires
                    self.sectors_per_cluster <= 0xff,
                    self.bytes_per_sector <= 0xffff,
            ;
        }
        self.sectors_per_cluster as u32 * self.bytes_per_sector as u32
    }

    /// Decide whether raw boot-sector fields describe a FAT32 volume and
    /// derive the geometry from them.
    ///
    /// Succeeds exactly when both legacy fields are zero (a nonzero 16-bit
    /// FAT size or legacy root-entry count marks FAT12/16) and the derived
    /// first data sector fits in 32 bits.
    pub fn from_fields(
        bytes_per_sector: u16,
        sectors_per_cluster: u8,
        reserved_sector_count: u16,
        num_fats: u8,
        root_entry_count: u16,
        fat_size_16: u16,
        fat_size_32: u32,
        root_cluster: u32,
    ) -> (r: Result<Info>)
        ensures
            (r is Ok <==> fat_size_16 == 0 && root_entry_count == 0
                && reserved_sector_count + num_fats * fat_size_32 <= u32::MAX),
            r matches Ok(info) ==> {
                &&& info.bytes_per_sector == bytes_per_sector
                &&& info.sectors_per_cluster == sectors_per_cluster
                &&& info.reserved_sector_count == reserved_sector_count
                &&& info.first_data_sector
                    == reserved_sector_count + num_fats * fat_size_32
                &&& info.root_cluster == root_cluster
            },
            r matches Err(e) ==> e is NotFat32,
    {
        if fat_size_16 != 0 {
            return Err(Error::NotFat32);
        }
        if root_entry_count != 0 {
            return Err(Error::NotFat32);
        }
        proof {
            assert(num_fats * fat_size_32 < 0x100_0000_0000) by (nonlinear_arith)
                requires
                    num_fats <= 0xff,
                    fat_size_32 <= 0xffff_ffff,
            ;
        }
        let fat_total: u64 = num_fats as u64 * fat_size_32 as u64;
        let first_data_sector_wide: u64 = reserved_sector_count as u64 + fat_total;
        if first_data_sector_wide > u32::MAX as u64 {
            return Err(Error::NotFat32);
        }
        Ok(Info {
            bytes_per_sector,
            sectors_per_cluster,
            reserved_sector_count,
            first_data_sector: first_data_sector_wide as u32,
            root_cluster,
        })
    }

    /// Read the boot sector's fixed fields through `reader` and decode them.
    ///
    /// On success every field is the little-endian value at its fixed offset
    /// in the image's first sector, and the geometry is the one
    /// `from_fields` derives from those values.
    pub fn read<R: Reader>(reader: &R) -> (r: Result<Info>)
        ensures
            r matches Ok(info) ==> info_matches_image(info, reader.data()),
    {
        let bytes_per_sector: u16 = read_u16_at(reader, 11)?;
        let sectors_per_cluster: u8 = read_u8_at(reader, 13)?;
        let reserved_sector_count: u16 = read_u16_at(reader, 14)?;
        let num_fats: u8 = read_u8_at(reader, 16)?;
        let root_entry_count: u16 = read_u16_at(reader, 17)?;
        let fat_size_16: u16 = read_u16_at(reader, 22)?;
        let fat_size_32: u32 = read_u32_at(reader, 36)?;
        let root_cluster: u32 = read_u32_at(reader, 44)?;

        Info::from_fields(
            bytes_per_sector,
            sectors_per_cluster,
            reserved_sector_count,
            num_fats,
            root_entry_count,
            fat_size_16,
            fat_size_32,
            root_cluster,
        )
    }
}

/// The first sector of a data cluster grows with the cluster number: it
/// never decreases, and it strictly increases whenever clusters span at
/// least one sector.
pub proof fn lemma_first_sector_monotonic(info: Info, c1: u32, c2: u32)
    requires
        FIRST_DATA_CLUSTER <= c1 < c2,
    ensures
        info.spec_first_sector_of_cluster(c1) <= info.spec_first_sector_of_cluster(c2),
        info.sectors_per_cluster > 0 ==> info.spec_first_sector_of_cluster(c1)
            < info.spec_first_sector_of_cluster(c2),
{
    let spc = info.sectors_per_cluster as int;
    assert((c1 - FIRST_DATA_CLUSTER) * spc <= (c2 - FIRST_DATA_CLUSTER) * spc) by (nonlinear_arith)
        requires
            spc >= 0,
            c1 <= c2,
            c1 >= FIRST_DATA_CLUSTER,
            FIRST_DATA_CLUSTER == 2int,
    ;
    if spc > 0 {
        assert((c1 - FIRST_DATA_CLUSTER) * spc < (c2 - FIRST_DATA_CLUSTER) * spc)
            by (nonlinear_arith)
            requires
                spc > 0,
                c1 < c2,
                c1 >= FIRST_DATA_CLUSTER,
                FIRST_DATA_CLUSTER == 2int,
        ;
    }
}

} // verus!
