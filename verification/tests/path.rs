use fat_decode::{EntryType, Error, Fat, SliceReader};

fn image_with(fat_links: &[(u32, u32)], clusters: &[(u32, Vec<u8>)]) -> Vec<u8> {
    let top = clusters.iter().map(|(c, _)| *c).max().unwrap_or(2);
    let mut img = vec![0u8; ((top as usize) + 1) * 512];
    img[11..13].copy_from_slice(&512u16.to_le_bytes());
    img[13] = 1;
    img[14..16].copy_from_slice(&1u16.to_le_bytes());
    img[16] = 1;
    img[36..40].copy_from_slice(&1u32.to_le_bytes());
    img[44..48].copy_from_slice(&2u32.to_le_bytes());
    for &(cluster, next) in fat_links {
        let off = 512 + cluster as usize * 4;
        img[off..off + 4].copy_from_slice(&next.to_le_bytes());
    }
    for (cluster, bytes) in clusters {
        let off = *cluster as usize * 512;
        img[off..off + bytes.len()].copy_from_slice(bytes);
    }
    img
}

fn short_record(name83: &[u8], attr: u8, cluster: u32, size: u32) -> Vec<u8> {
    assert_eq!(name83.len(), 11);
    let mut rec = vec![0u8; 32];
    rec[..11].copy_from_slice(name83);
    rec[11] = attr;
    rec[20..22].copy_from_slice(&((cluster >> 16) as u16).to_le_bytes());
    rec[26..28].copy_from_slice(&((cluster & 0xffff) as u16).to_le_bytes());
    rec[28..32].copy_from_slice(&size.to_le_bytes());
    rec
}

/// Root (cluster 2) holds directory "A"; "A" (cluster 3) holds file
/// "B.TXT" (cluster 4, 10 bytes of content).
fn nested_fixture() -> Fat<SliceReader> {
    let mut root = short_record(b"A          ", 0x10, 3, 0);
    root.extend_from_slice(&vec![0u8; 32]);
    let mut subdir = short_record(b"B       TXT", 0x00, 4, 10);
    subdir.extend_from_slice(&vec![0u8; 32]);
    let content = b"0123456789".to_vec();
    let img = image_with(
        &[(2, 0x0fff_fff8), (3, 0x0fff_fff8), (4, 0x0fff_fff8)],
        &[(2, root), (3, subdir), (4, content)],
    );
    Fat::new(SliceReader::new(img)).unwrap()
}

#[test]
fn resolves_nested_file() {
    let fat = nested_fixture();
    let entry = fat.find_raw(b"/A/B.TXT").unwrap();
    assert_eq!(entry.type_(), EntryType::File);
    assert_eq!(entry.size(), 10);
    let mut file = fat.open(b"/A/B.TXT").unwrap();
    assert_eq!(file.read(100).unwrap(), b"0123456789".to_vec());
}

#[test]
fn missing_name_fails_not_found() {
    let fat = nested_fixture();
    assert!(matches!(fat.find_raw(b"/A/MISSING.TXT"), Err(Error::NotFound)));
    assert!(matches!(fat.find_raw(b"/NOPE"), Err(Error::NotFound)));
}

#[test]
fn descending_through_a_file_fails_not_directory() {
    let fat = nested_fixture();
    assert!(matches!(fat.find_raw(b"/A/B.TXT/X"), Err(Error::NotDirectory)));
}

#[test]
fn repeated_separators_resolve_like_the_canonical_path() {
    let fat = nested_fixture();
    let entry = fat.find_raw(b"//A//B.TXT").unwrap();
    assert_eq!(entry.type_(), EntryType::File);
    assert_eq!(entry.size(), 10);
    let trailing = fat.find_raw(b"A/B.TXT/").unwrap();
    assert_eq!(trailing.size(), 10);
}

#[test]
fn opening_a_directory_as_a_file_is_refused() {
    let fat = nested_fixture();
    assert!(matches!(fat.open(b"/A"), Err(Error::NotDirectory)));
}

#[test]
fn reading_a_file_as_a_directory_is_refused() {
    let fat = nested_fixture();
    assert!(matches!(fat.read_dir(b"/A/B.TXT"), Err(Error::NotDirectory)));
}

#[test]
fn empty_path_is_the_root_directory() {
    let fat = nested_fixture();
    let root = fat.find_raw(b"/").unwrap();
    assert_eq!(root.type_(), EntryType::Directory);
    assert_eq!(root.size(), 0);
    assert_eq!(root.name(), b"");
    let mut listing = fat.read_dir(b"").unwrap();
    let first = listing.next().unwrap().unwrap();
    assert_eq!(first.name(), b"A");
}

#[test]
fn entry_handles_open_their_subject() {
    let fat = nested_fixture();
    let dir_entry = fat.find_raw(b"/A").unwrap();
    let mut dir = dir_entry.read_dir().unwrap();
    let child = dir.next().unwrap().unwrap();
    assert_eq!(child.name(), b"B.TXT");
    let mut file = child.open().unwrap();
    assert_eq!(file.read(4).unwrap(), b"0123".to_vec());
    assert_eq!(file.read(100).unwrap(), b"456789".to_vec());
}
