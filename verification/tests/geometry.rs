use fat_decode::{Error, Info, SliceReader};

fn boot_sector(
    bytes_per_sector: u16,
    sectors_per_cluster: u8,
    reserved: u16,
    num_fats: u8,
    root_entry_count: u16,
    fat_size_16: u16,
    fat_size_32: u32,
    root_cluster: u32,
) -> Vec<u8> {
    let mut s = vec![0u8; 512];
    s[11..13].copy_from_slice(&bytes_per_sector.to_le_bytes());
    s[13] = sectors_per_cluster;
    s[14..16].copy_from_slice(&reserved.to_le_bytes());
    s[16] = num_fats;
    s[17..19].copy_from_slice(&root_entry_count.to_le_bytes());
    s[22..24].copy_from_slice(&fat_size_16.to_le_bytes());
    s[36..40].copy_from_slice(&fat_size_32.to_le_bytes());
    s[44..48].copy_from_slice(&root_cluster.to_le_bytes());
    s
}

#[test]
fn parses_valid_boot_sector() {
    let reader = SliceReader::new(boot_sector(512, 4, 32, 2, 0, 0, 100, 2));
    let info = Info::read(&reader).unwrap();
    assert_eq!(info.bytes_per_sector, 512);
    assert_eq!(info.sectors_per_cluster, 4);
    assert_eq!(info.reserved_sector_count, 32);
    assert_eq!(info.first_data_sector, 32 + 2 * 100);
    assert_eq!(info.root_cluster, 2);
}

#[test]
fn rejects_nonzero_fat16_size() {
    let reader = SliceReader::new(boot_sector(512, 4, 32, 2, 0, 9, 100, 2));
    assert!(matches!(Info::read(&reader), Err(Error::NotFat32)));
}

#[test]
fn rejects_nonzero_root_entry_count() {
    let reader = SliceReader::new(boot_sector(512, 4, 32, 2, 512, 0, 100, 2));
    assert!(matches!(Info::read(&reader), Err(Error::NotFat32)));
}

#[test]
fn from_fields_succeeds_exactly_on_zero_legacy_fields() {
    assert!(Info::from_fields(512, 1, 1, 1, 0, 0, 1, 2).is_ok());
    assert!(matches!(
        Info::from_fields(512, 1, 1, 1, 0, 1, 1, 2),
        Err(Error::NotFat32)
    ));
    assert!(matches!(
        Info::from_fields(512, 1, 1, 1, 1, 0, 1, 2),
        Err(Error::NotFat32)
    ));
}

#[test]
fn truncated_image_fails_the_boot_sector_read() {
    // Too short for any boot-sector field: the in-memory source refuses.
    let reader = SliceReader::new(vec![0u8; 5]);
    assert!(matches!(Info::read(&reader), Err(Error::OutOfBounds)));
}

#[test]
fn cluster_arithmetic_exact_values() {
    let info = Info {
        bytes_per_sector: 512,
        sectors_per_cluster: 4,
        reserved_sector_count: 32,
        first_data_sector: 232,
        root_cluster: 2,
    };
    // FAT offset: reserved area plus four bytes per cluster number.
    assert_eq!(info.cluster_to_fat(0), 32 * 512);
    assert_eq!(info.cluster_to_fat(5), 32 * 512 + 20);
    // First sector: clusters are numbered from 2.
    assert_eq!(info.first_sector_of_cluster(2), 232);
    assert_eq!(info.first_sector_of_cluster(3), 236);
    assert_eq!(info.first_sector_of_cluster(7), 232 + 5 * 4);
    assert_eq!(info.bytes_per_cluster(), 2048);
}

#[test]
fn first_sector_is_monotonic_in_cluster() {
    let info = Info {
        bytes_per_sector: 512,
        sectors_per_cluster: 8,
        reserved_sector_count: 6,
        first_data_sector: 70,
        root_cluster: 2,
    };
    let mut last = info.first_sector_of_cluster(2);
    for c in 3..40u32 {
        let s = info.first_sector_of_cluster(c);
        assert!(s > last);
        last = s;
    }
}
