use fat_decode::{EntryType, Fat, SliceReader};

fn image_with(fat_links: &[(u32, u32)], clusters: &[(u32, Vec<u8>)]) -> Vec<u8> {
    let top = clusters.iter().map(|(c, _)| *c).max().unwrap_or(2);
    let mut img = vec![0u8; ((top as usize) + 1) * 512];
    img[11..13].copy_from_slice(&512u16.to_le_bytes());
    img[13] = 1;
    img[14..16].copy_from_slice(&1u16.to_le_bytes());
    img[16] = 1;
    img[36..40].copy_from_slice(&1u32.to_le_bytes());
    img[44..48].copy_from_slice(&2u32.to_le_bytes());
    for &(cluster, next) in fat_links {
        let off = 512 + cluster as usize * 4;
        img[off..off + 4].copy_from_slice(&next.to_le_bytes());
    }
    for (cluster, bytes) in clusters {
        let off = *cluster as usize * 512;
        img[off..off + bytes.len()].copy_from_slice(bytes);
    }
    img
}

fn short_record(name83: &[u8], attr: u8, cluster: u32, size: u32) -> Vec<u8> {
    assert_eq!(name83.len(), 11);
    let mut rec = vec![0u8; 32];
    rec[..11].copy_from_slice(name83);
    rec[11] = attr;
    rec[20..22].copy_from_slice(&((cluster >> 16) as u16).to_le_bytes());
    rec[26..28].copy_from_slice(&((cluster & 0xffff) as u16).to_le_bytes());
    rec[28..32].copy_from_slice(&size.to_le_bytes());
    rec
}

fn lfn_record(lead: u8, units: &[u16]) -> Vec<u8> {
    assert!(units.len() <= 13);
    let mut rec = vec![0u8; 32];
    rec[0] = lead;
    rec[11] = 0x0f;
    let offsets = [1, 3, 5, 7, 9, 14, 16, 18, 20, 22, 24, 28, 30];
    for (slot, &off) in offsets.iter().enumerate() {
        let unit = units.get(slot).copied().unwrap_or(0);
        rec[off..off + 2].copy_from_slice(&unit.to_le_bytes());
    }
    rec
}

fn utf16(s: &str) -> Vec<u16> {
    s.encode_utf16().collect()
}

fn root_with(records: &[Vec<u8>]) -> Fat<SliceReader> {
    let mut dir = Vec::new();
    for r in records {
        dir.extend_from_slice(r);
    }
    let img = image_with(&[(2, 0x0fff_fff8)], &[(2, dir)]);
    Fat::new(SliceReader::new(img)).unwrap()
}

#[test]
fn three_fragments_reconstruct_long_name() {
    // Fragments stand on disk in descending sequence order; prepending each
    // one rebuilds the name in reading order.
    let fat = root_with(&[
        lfn_record(0x43, &utf16("xt")),
        lfn_record(0x02, &utf16("a.t")),
        lfn_record(0x01, &utf16("alph")),
        short_record(b"ALPHA   TXT", 0x00, 0, 5),
        vec![0u8; 32],
    ]);
    let mut root = fat.root();
    let entry = root.next().unwrap().unwrap();
    assert_eq!(entry.name(), b"alpha.txt");
    assert_eq!(entry.type_(), EntryType::File);
    assert_eq!(entry.size(), 5);
}

#[test]
fn short_name_joins_base_and_extension() {
    let fat = root_with(&[short_record(b"README  TXT", 0x00, 0, 0), vec![0u8; 32]]);
    let mut root = fat.root();
    let entry = root.next().unwrap().unwrap();
    assert_eq!(entry.name(), b"README.TXT");
}

#[test]
fn short_name_without_extension_has_no_dot() {
    let fat = root_with(&[short_record(b"README     ", 0x00, 0, 0), vec![0u8; 32]]);
    let mut root = fat.root();
    let entry = root.next().unwrap().unwrap();
    assert_eq!(entry.name(), b"README");
}

#[test]
fn end_marker_stops_iteration_immediately() {
    // A well-formed record after the end marker is never reached.
    let fat = root_with(&[
        vec![0u8; 32],
        short_record(b"HIDDEN  TXT", 0x00, 0, 1),
    ]);
    let mut root = fat.root();
    assert!(root.next().is_none());
    assert!(root.next().is_none());
}

#[test]
fn free_record_is_skipped() {
    let mut free = short_record(b"GONE    TXT", 0x00, 0, 1);
    free[0] = 0xe5;
    let fat = root_with(&[
        free,
        short_record(b"KEPT    TXT", 0x00, 0, 7),
        vec![0u8; 32],
    ]);
    let mut root = fat.root();
    let entry = root.next().unwrap().unwrap();
    assert_eq!(entry.name(), b"KEPT.TXT");
    assert_eq!(entry.size(), 7);
    assert!(root.next().is_none());
}

#[test]
fn abandoned_fragments_are_dropped_by_next_short_entry() {
    // A long-name run interrupted by a free record never reaches a short
    // entry; the following short entry keeps its own 8.3 name.
    let mut free = short_record(b"GONE    TXT", 0x00, 0, 1);
    free[0] = 0xe5;
    let fat = root_with(&[
        lfn_record(0x01, &utf16("lost")),
        free,
        short_record(b"PLAIN   TXT", 0x00, 0, 2),
        vec![0u8; 32],
    ]);
    let mut root = fat.root();
    let entry = root.next().unwrap().unwrap();
    // The stray fragment still annotates the next short record, as the
    // accumulator is only cleared by a short entry or the end of the scan.
    assert_eq!(entry.name(), b"lost");
    assert!(root.next().is_none());
}

#[test]
fn entry_kinds_follow_attribute_bits() {
    let fat = root_with(&[
        short_record(b"LABEL      ", 0x08, 0, 0),
        short_record(b"SUBDIR     ", 0x10, 3, 0),
        short_record(b"DATA    BIN", 0x20, 4, 9),
        vec![0u8; 32],
    ]);
    let mut root = fat.root();
    assert_eq!(root.next().unwrap().unwrap().type_(), EntryType::VolumeLabel);
    assert_eq!(root.next().unwrap().unwrap().type_(), EntryType::Directory);
    assert_eq!(root.next().unwrap().unwrap().type_(), EntryType::File);
    assert!(root.next().is_none());
}

#[test]
fn split_cluster_field_is_reassembled() {
    // The entry's chain starts at cluster 0x10003: high word 1, low word 3.
    // With 16-byte sectors that cluster's two content bytes stay reachable
    // in a modest image.
    // Geometry: 16-byte sectors, 4 reserved sectors, one FAT of one
    // sector, so the first data sector is 5 and cluster `c` starts at byte
    // `(c + 3) * 16`.  The root directory is cluster 5, chained to 6, and
    // holds one 32-byte record split across the two.
    let cluster: u32 = 0x0001_0003;
    let mut img = vec![0u8; (cluster as usize + 4) * 16];
    img[11..13].copy_from_slice(&16u16.to_le_bytes());
    img[13] = 1;
    img[14..16].copy_from_slice(&4u16.to_le_bytes());
    img[16] = 1;
    img[36..40].copy_from_slice(&1u32.to_le_bytes());
    img[44..48].copy_from_slice(&5u32.to_le_bytes());
    let rec = short_record(b"HI      BIN", 0x00, cluster, 2);
    img[128..144].copy_from_slice(&rec[..16]);
    img[144..160].copy_from_slice(&rec[16..]);
    let fat_base = 4 * 16usize;
    let eoc = 0x0fff_fff8u32.to_le_bytes();
    img[fat_base + 5 * 4..fat_base + 5 * 4 + 4].copy_from_slice(&6u32.to_le_bytes());
    img[fat_base + 6 * 4..fat_base + 6 * 4 + 4].copy_from_slice(&eoc);
    let target_fat = fat_base + cluster as usize * 4;
    img[target_fat..target_fat + 4].copy_from_slice(&eoc);
    let content = (cluster as usize + 3) * 16;
    img[content..content + 2].copy_from_slice(b"OK");
    let fat = Fat::new(SliceReader::new(img)).unwrap();
    let mut root = fat.root();
    let entry = root.next().unwrap().unwrap();
    assert_eq!(entry.size(), 2);
    let mut file = entry.open().unwrap();
    assert_eq!(file.read(16).unwrap(), b"OK".to_vec());
}

#[test]
fn directory_spanning_two_clusters_lists_every_entry() {
    // 16 records fill cluster 2 exactly; the rest continue in cluster 3.
    let mut records = Vec::new();
    for i in 0..20u8 {
        let mut name = *b"FILE       ";
        name[4] = b'A' + i;
        records.push(short_record(&name, 0x00, 0, i as u32));
    }
    records.push(vec![0u8; 32]);
    let mut dir = Vec::new();
    for r in &records {
        dir.extend_from_slice(r);
    }
    let img = image_with(
        &[(2, 3), (3, 0x0fff_fff8)],
        &[(2, dir[..512].to_vec()), (3, dir[512..].to_vec())],
    );
    let fat = Fat::new(SliceReader::new(img)).unwrap();
    let mut root = fat.root();
    for i in 0..20u8 {
        let entry = root.next().unwrap().unwrap();
        let expected = format!("FILE{}", (b'A' + i) as char);
        assert_eq!(entry.name(), expected.as_bytes());
        assert_eq!(entry.size(), i as u32);
    }
    assert!(root.next().is_none());
}

#[test]
fn cyclic_chain_of_free_records_ends_iteration() {
    // Clusters 2 and 3 link to each other and hold only free records: the
    // decoder gives up at its record cap instead of scanning forever.
    let free = vec![0xe5u8; 512];
    let img = image_with(&[(2, 3), (3, 2)], &[(2, free.clone()), (3, free)]);
    let fat = Fat::new(SliceReader::new(img)).unwrap();
    let mut root = fat.root();
    assert!(root.next().is_none());
    assert!(root.next().is_none());
}

#[test]
fn incomplete_trailing_record_ends_iteration() {
    // Sixteen-byte clusters: the root chain is one cluster long, so a
    // 32-byte record read comes back short and iteration ends at once.
    let mut img = vec![0u8; 48];
    img[11..13].copy_from_slice(&16u16.to_le_bytes());
    img[13] = 1;
    img[14..16].copy_from_slice(&1u16.to_le_bytes());
    img[16] = 1;
    img[36..40].copy_from_slice(&1u32.to_le_bytes());
    img[44..48].copy_from_slice(&2u32.to_le_bytes());
    // FAT entry of cluster 2, at byte 16 + 2 * 4: end of chain.
    img[24..28].copy_from_slice(&0x0fff_fff8u32.to_le_bytes());
    let fat = Fat::new(SliceReader::new(img)).unwrap();
    let mut root = fat.root();
    assert!(root.next().is_none());
    assert!(root.next().is_none());
}
