use fat_decode::int_ext::IntExt;
use fat_decode::long_name::{utf16_to_utf8, LongNameBuf};
use fat_decode::read::u8_to_u16;
use fat_decode::Error;

#[test]
fn bytes_pair_into_little_endian_units() {
    assert_eq!(u8_to_u16(&[0x34, 0x12, 0xff, 0x00]), vec![0x1234, 0x00ff]);
    // A trailing odd byte is dropped.
    assert_eq!(u8_to_u16(&[0x01, 0x02, 0x03]), vec![0x0201]);
    assert_eq!(u8_to_u16(&[]), Vec::<u16>::new());
}

#[test]
fn ceil_division_exact_values() {
    assert_eq!(7u8.div_ceil_p(2), 4);
    assert_eq!(8u16.div_ceil_p(2), 4);
    assert_eq!(9u32.div_ceil_p(4), 3);
    assert_eq!(0u64.div_ceil_p(5), 0);
    assert_eq!(255usize.div_ceil_p(1), 255);
}

#[test]
fn error_messages_are_fixed() {
    assert_eq!(Error::NotFat32.message(), "not fat32");
    assert_eq!(Error::NotDirectory.message(), "not a directory");
    assert_eq!(Error::NotFound.message(), "not found");
    assert_eq!(Error::OutOfBounds.message(), "read out of bounds");
}

#[test]
fn utf16_re_encoding_covers_all_widths() {
    // 'A' one byte, 'é' two, '€' three, and a surrogate pair four.
    let units: Vec<u16> = "Aé€𝄞".encode_utf16().collect();
    assert_eq!(utf16_to_utf8(&units), "Aé€𝄞".as_bytes().to_vec());
}

#[test]
fn unpaired_surrogate_becomes_replacement_character() {
    let units = vec![0xd800u16, 0x0041];
    assert_eq!(utf16_to_utf8(&units), vec![0xef, 0xbf, 0xbd, 0x41]);
    let units = vec![0xdc00u16];
    assert_eq!(utf16_to_utf8(&units), vec![0xef, 0xbf, 0xbd]);
}

#[test]
fn accumulator_prepends_fragments() {
    let mut buf = LongNameBuf::new();
    assert!(buf.is_empty());
    buf.push_component(b"xt");
    buf.push_component(b"a.t");
    buf.push_component(b"alph");
    assert_eq!(buf.data(), b"alpha.txt");
    assert_eq!(buf.len(), 9);
    assert!(!buf.is_empty());
    buf.clear();
    assert!(buf.is_empty());
    assert_eq!(buf.data(), b"");
}
