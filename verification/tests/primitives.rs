use ase::helpers::{check_string, read_bytes, read_string, write_string};
use ase::writer::{write_bytes, write_i16, write_i32, write_u16, write_u32, write_u8, write_zeros};
use ase::{Error, Reader};

#[test]
fn reader_takes_little_endian_fields_in_order() {
    let mut read = Reader::new(vec![
        0x34, 0x12, 0x78, 0x56, 0x34, 0x12, 0xFE, 0xFF, 0xFE, 0xFF, 0xFF, 0xFF, 0x80, 0x00, 0x80,
        0x00, 0x00, 0x00, 0x80,
    ]);
    assert_eq!(read.read_u16(), Ok(0x1234));
    assert_eq!(read.read_u32(), Ok(0x1234_5678));
    assert_eq!(read.read_i16(), Ok(-2));
    assert_eq!(read.read_i32(), Ok(-2));
    assert_eq!(read.read_u8(), Ok(0x80));
    assert_eq!(read.read_i16(), Ok(-32768));
    assert_eq!(read.read_i32(), Ok(i32::MIN));
    assert_eq!(read.position(), 19);
    assert_eq!(read.remaining(), 0);
}

#[test]
fn reader_on_too_few_bytes_fails_and_stays() {
    let mut read = Reader::new(vec![1, 2, 3]);
    assert_eq!(read.read_u32(), Err(Error::UnexpectedEof));
    assert_eq!(read.read_i32(), Err(Error::UnexpectedEof));
    assert_eq!(read.position(), 0);
    assert_eq!(read.read_u16(), Ok(0x0201));
    assert_eq!(read.read_u16(), Err(Error::UnexpectedEof));
    assert_eq!(read.read_i16(), Err(Error::UnexpectedEof));
    assert_eq!(read.position(), 2);
    assert_eq!(read.skip(2), Err(Error::UnexpectedEof));
    assert_eq!(read.need(2), Err(Error::UnexpectedEof));
    assert_eq!(read.need(1), Ok(()));
    assert_eq!(read.skip(1), Ok(()));
    assert_eq!(read.read_u8(), Err(Error::UnexpectedEof));
    assert_eq!(read.skip(0), Ok(()));
    assert_eq!(read.position(), 3);
}

#[test]
fn read_bytes_takes_exactly_the_length() {
    let mut read = Reader::new(vec![9, 8, 7, 6, 5]);
    assert_eq!(read_bytes(&mut read, 0), Ok(vec![]));
    assert_eq!(read_bytes(&mut read, 2), Ok(vec![9, 8]));
    assert_eq!(read_bytes(&mut read, 4), Err(Error::UnexpectedEof));
    assert_eq!(read.position(), 2);
    assert_eq!(read_bytes(&mut read, 3), Ok(vec![7, 6, 5]));
    assert_eq!(read.read_vec(1), Err(Error::UnexpectedEof));
}

#[test]
fn writer_appends_little_endian_fields() {
    let mut out: Vec<u8> = vec![0xAA];
    write_u8(&mut out, 0x7F);
    write_u16(&mut out, 0x1234);
    write_i16(&mut out, -2);
    write_u32(&mut out, 0x1234_5678);
    write_i32(&mut out, -2);
    write_i16(&mut out, i16::MIN);
    write_i32(&mut out, i32::MAX);
    write_zeros(&mut out, 3);
    write_bytes(&mut out, &[1, 2]);
    assert_eq!(
        out,
        vec![
            0xAA, 0x7F, 0x34, 0x12, 0xFE, 0xFF, 0x78, 0x56, 0x34, 0x12, 0xFE, 0xFF, 0xFF, 0xFF,
            0x00, 0x80, 0xFF, 0xFF, 0xFF, 0x7F, 0, 0, 0, 1, 2
        ]
    );
}

#[test]
fn written_fields_read_back() {
    let mut out: Vec<u8> = Vec::new();
    let words: [u16; 5] = [0, 1, 0x00FF, 0xFF00, 0xFFFF];
    let longs: [u32; 5] = [0, 1, 0x0001_0000, 0x8000_0000, 0xFFFF_FFFF];
    let shorts: [i16; 5] = [0, 1, -1, i16::MIN, i16::MAX];
    let ints: [i32; 5] = [0, 1, -1, i32::MIN, i32::MAX];
    for k in 0..5 {
        write_u16(&mut out, words[k]);
        write_u32(&mut out, longs[k]);
        write_i16(&mut out, shorts[k]);
        write_i32(&mut out, ints[k]);
    }
    let mut read = Reader::new(out);
    for k in 0..5 {
        assert_eq!(read.read_u16(), Ok(words[k]));
        assert_eq!(read.read_u32(), Ok(longs[k]));
        assert_eq!(read.read_i16(), Ok(shorts[k]));
        assert_eq!(read.read_i32(), Ok(ints[k]));
    }
    assert_eq!(read.remaining(), 0);
}

#[test]
fn string_is_length_prefixed_utf8() {
    let mut out: Vec<u8> = Vec::new();
    assert_eq!(write_string(&mut out, "h\u{e9}llo"), Ok(()));
    assert_eq!(out, vec![6, 0, b'h', 0xC3, 0xA9, b'l', b'l', b'o']);
    assert_eq!(write_string(&mut out, ""), Ok(()));
    assert_eq!(out.len(), 10);
    out.push(0x55);
    let mut read = Reader::new(out);
    assert_eq!(read_string(&mut read), Ok("h\u{e9}llo".to_string()));
    assert_eq!(read.position(), 8);
    assert_eq!(read_string(&mut read), Ok(String::new()));
    assert_eq!(read.remaining(), 1);
}

#[test]
fn string_roundtrip_on_sample_texts() {
    let samples = ["", "a", "Layer 1", "\u{65e5}\u{672c}\u{8a9e}", "tab\tnewline\n", "\u{1F600}"];
    for s in samples {
        let mut out: Vec<u8> = Vec::new();
        write_string(&mut out, s).unwrap();
        assert_eq!(out.len(), 2 + s.len());
        let mut read = Reader::new(out);
        assert_eq!(read_string(&mut read), Ok(s.to_string()));
        assert_eq!(read.remaining(), 0);
    }
}

#[test]
fn string_that_is_not_utf8_is_refused() {
    let mut read = Reader::new(vec![2, 0, 0xFF, 0xFE]);
    assert_eq!(read_string(&mut read), Err(Error::InvalidUtf8));
    let mut read = Reader::new(vec![1, 0, 0xC3]);
    assert_eq!(read_string(&mut read), Err(Error::InvalidUtf8));
}

#[test]
fn string_cut_short_is_refused() {
    let mut read = Reader::new(vec![5]);
    assert_eq!(read_string(&mut read), Err(Error::UnexpectedEof));
    let mut read = Reader::new(vec![3, 0, b'a', b'b']);
    assert_eq!(read_string(&mut read), Err(Error::UnexpectedEof));
    let mut read = Reader::new(vec![]);
    assert_eq!(read_string(&mut read), Err(Error::UnexpectedEof));
}

#[test]
fn string_longer_than_its_prefix_can_say_is_refused() {
    let long: String = "a".repeat(0x1_0000);
    let mut out: Vec<u8> = vec![1, 2, 3];
    assert_eq!(write_string(&mut out, &long), Err(Error::TooLarge));
    assert_eq!(out, vec![1, 2, 3]);
    assert_eq!(check_string(&long), Err(Error::TooLarge));
    let fits: String = "a".repeat(0xFFFF);
    assert_eq!(check_string(&fits), Ok(()));
    assert_eq!(write_string(&mut out, &fits), Ok(()));
    assert_eq!(out.len(), 3 + 2 + 0xFFFF);
    assert_eq!(&out[3..5], &[0xFF, 0xFF]);
    let mut read = Reader::new(out[3..].to_vec());
    assert_eq!(read_string(&mut read), Ok(fits));
}
