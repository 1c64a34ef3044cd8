use sesearch_rust::reader::Reader;

#[test]
fn primitives() {
    let data = [0x8C, 0xFF, 0x7C, 0xF9, 0x05, 0x00];
    let mut r = Reader::new(&data);
    assert_eq!(r.read_u32().unwrap(), 0xF97C_FF8C);
    assert_eq!(r.read_u16().unwrap(), 5);
    assert!(r.read_u8().is_err());
}

#[test]
fn string_with_nul() {
    let data = [0x06, 0, 0, 0, b'h', b'e', b'l', b'l', b'o', 0x00];
    let mut r = Reader::new(&data);
    assert_eq!(r.read_string().unwrap(), "hello");
}

#[test]
fn ebitmap_bits() {
    // mapsize=64, highbit=64, count=1, startbit=0, map=0x05 -> bits 0 and 2
    let data = [
        0x40, 0, 0, 0, 0x40, 0, 0, 0, 0x01, 0, 0, 0, 0, 0, 0, 0, 0x05, 0, 0, 0, 0, 0, 0, 0,
    ];
    let mut r = Reader::new(&data);
    assert_eq!(r.read_ebitmap().unwrap(), vec![0, 2]);
}

#[test]
fn ebitmap_empty() {
    let data = [0x40, 0, 0, 0, 0, 0, 0, 0, 0, 0, 0, 0];
    let mut r = Reader::new(&data);
    assert!(r.read_ebitmap().unwrap().is_empty());
}

#[test]
fn eof_error_names_offset_and_counts() {
    let data = [1, 2, 3];
    let mut r = Reader::new(&data);
    assert_eq!(r.read_u8().unwrap(), 1);
    let err = r.read_u32().unwrap_err();
    assert_eq!(err, "unexpected EOF at offset 0x1: need 4 more byte(s), have 2");
    // A failed read leaves the position where it was.
    assert_eq!(r.pos(), 1);
    assert_eq!(r.remaining(), 2);
}

#[test]
fn u64_and_bytes_and_skip() {
    let data = [1, 0, 0, 0, 0, 0, 0, 0x80, 9, 8, 7];
    let mut r = Reader::new(&data);
    assert_eq!(r.read_u64().unwrap(), 0x8000_0000_0000_0001);
    assert_eq!(r.read_bytes(2).unwrap(), &[9, 8]);
    assert!(r.skip(2).is_err());
    assert!(r.skip(1).is_ok());
    assert_eq!(r.remaining(), 0);
}

#[test]
fn key_stops_at_nul_and_rejects_bad_utf8() {
    let data = [b'a', b'b', 0, b'c'];
    let mut r = Reader::new(&data);
    assert_eq!(r.read_key(4).unwrap(), "ab");
    let bad = [0xFF, 0xFE];
    let mut r = Reader::new(&bad);
    let err = r.read_key(2).unwrap_err();
    assert!(err.starts_with("invalid UTF-8 key at 0x0: "), "got: {err}");
}

#[test]
fn ebitmap_node_offsets_bits_by_startbit() {
    // highbit=128, count=1, startbit=64, map=0b1001 -> bits 64 and 67
    let data = [
        0x40, 0, 0, 0, 0x80, 0, 0, 0, 0x01, 0, 0, 0, 0x40, 0, 0, 0, 0x09, 0, 0, 0, 0, 0, 0, 0,
    ];
    let mut r = Reader::new(&data);
    assert_eq!(r.read_ebitmap().unwrap(), vec![64, 67]);
    assert_eq!(r.remaining(), 0);
}

#[test]
fn mls_range_with_one_item_and_context() {
    // items=1, low sensitivity, one empty category ebitmap
    let mut data = vec![1, 0, 0, 0, 7, 0, 0, 0];
    data.extend_from_slice(&[0x40, 0, 0, 0, 0, 0, 0, 0, 0, 0, 0, 0]);
    let mut r = Reader::new(&data);
    assert!(r.skip_mls_range().is_ok());
    assert_eq!(r.remaining(), 0);

    // user, role, type (no MLS part)
    let ctx = [1, 0, 0, 0, 2, 0, 0, 0, 9, 0, 0, 0];
    let mut r = Reader::new(&ctx);
    assert_eq!(r.read_context_type(false).unwrap(), 9);
}

#[test]
fn a_trailing_nul_is_read_with_the_string() {
    let data = [0x04, 0, 0, 0, b'a', b'b', b'c', 0x00, 0x2A];
    let mut r = Reader::new(&data);
    assert_eq!(r.read_string().unwrap(), "abc");
    assert_eq!(r.pos(), 8);
    assert_eq!(r.read_u8().unwrap(), 0x2A);
}

#[test]
fn skipping_an_ebitmap_ends_where_reading_it_does() {
    // Two nodes, then one extra byte.
    let data = [
        0x40, 0, 0, 0, 0x80, 0, 0, 0, 0x02, 0, 0, 0, //
        0, 0, 0, 0, 0x01, 0, 0, 0, 0, 0, 0, 0, //
        0x40, 0, 0, 0, 0x01, 0, 0, 0, 0, 0, 0, 0, //
        0x07,
    ];
    let mut skipper = Reader::new(&data);
    let mut reader = Reader::new(&data);
    assert!(skipper.skip_ebitmap().is_ok());
    assert_eq!(reader.read_ebitmap().unwrap(), vec![0, 64]);
    assert_eq!(skipper.pos(), 36);
    assert_eq!(reader.pos(), 36);
    // One node short: both fail.
    let short = &data[..30];
    assert!(Reader::new(short).skip_ebitmap().is_err());
    assert!(Reader::new(short).read_ebitmap().is_err());
}
