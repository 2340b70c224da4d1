use fat_decode::{Fat, File, RawFile, SliceReader};

fn image_with(fat_links: &[(u32, u32)], clusters: &[(u32, Vec<u8>)]) -> Vec<u8> {
    let top = clusters.iter().map(|(c, _)| *c).max().unwrap_or(2);
    let mut img = vec![0u8; ((top as usize) + 1) * 512];
    img[11..13].copy_from_slice(&512u16.to_le_bytes());
    img[13] = 1;
    img[14..16].copy_from_slice(&1u16.to_le_bytes());
    img[16] = 1;
    img[36..40].copy_from_slice(&1u32.to_le_bytes());
    img[44..48].copy_from_slice(&2u32.to_le_bytes());
    for &(cluster, next) in fat_links {
        let off = 512 + cluster as usize * 4;
        img[off..off + 4].copy_from_slice(&next.to_le_bytes());
    }
    for (cluster, bytes) in clusters {
        let off = *cluster as usize * 512;
        img[off..off + bytes.len()].copy_from_slice(bytes);
    }
    img
}

fn pattern(len: usize, salt: u8) -> Vec<u8> {
    (0..len).map(|i| ((i as u32 * 7 + salt as u32) % 251) as u8).collect()
}

#[test]
fn never_returns_more_than_declared_size() {
    // The chain holds 1024 bytes but the file declares only 700.
    let data = pattern(1024, 1);
    let img = image_with(
        &[(2, 3), (3, 0x0fff_ffff)],
        &[(2, data[..512].to_vec()), (3, data[512..].to_vec())],
    );
    let fat = Fat::new(SliceReader::new(img)).unwrap();
    let mut file = File::from_raw(RawFile::at_cluster(&fat, 2), 700);
    let got = file.read(4096).unwrap();
    assert_eq!(got, data[..700].to_vec());
    // Reading past the end keeps returning nothing, without error.
    assert_eq!(file.read(4096).unwrap(), Vec::<u8>::new());
    assert_eq!(file.read(1).unwrap(), Vec::<u8>::new());
}

#[test]
fn chunked_reads_total_the_declared_size() {
    let data = pattern(1024, 2);
    let img = image_with(
        &[(2, 3), (3, 0x0fff_ffff)],
        &[(2, data[..512].to_vec()), (3, data[512..].to_vec())],
    );
    let fat = Fat::new(SliceReader::new(img)).unwrap();
    let mut file = File::from_raw(RawFile::at_cluster(&fat, 2), 600);
    let mut collected = Vec::new();
    loop {
        let chunk = file.read(128).unwrap();
        if chunk.is_empty() {
            break;
        }
        collected.extend_from_slice(&chunk);
    }
    assert_eq!(collected.len(), 600);
    assert_eq!(collected, data[..600].to_vec());
}

#[test]
fn zero_size_file_reads_nothing() {
    let img = image_with(&[(2, 0x0fff_fff8)], &[(2, pattern(512, 4))]);
    let fat = Fat::new(SliceReader::new(img)).unwrap();
    let mut file = File::from_raw(RawFile::at_cluster(&fat, 2), 0);
    assert_eq!(file.read(10).unwrap(), Vec::<u8>::new());
}
