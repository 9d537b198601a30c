use msgpacker::pack::{pack_array, pack_array_len, pack_map, pack_map_len};
use msgpacker::unpack::{
    unpack_array, unpack_array_iter, unpack_array_len, unpack_map, unpack_map_iter,
    unpack_map_len, unpack_seq,
};
use msgpacker::Error;

#[test]
fn array_of_values_comes_back() {
    let value: Vec<Option<u16>> = vec![Some(1), None, Some(300), Some(65535), None];
    let mut bytes = Vec::new();
    let n = pack_array(&mut bytes, &value);
    assert_eq!(n, bytes.len());
    assert_eq!(bytes, vec![0x95, 0x01, 0xc0, 0xcd, 0x01, 0x2c, 0xcd, 0xff, 0xff, 0xc0]);
    let (o, x): (usize, Vec<Option<u16>>) = unpack_array(&bytes).unwrap();
    let (p, y): (usize, Vec<Option<u16>>) =
        unpack_array_iter(&mut bytes.into_iter().peekable()).unwrap();
    assert_eq!(n, o);
    assert_eq!(n, p);
    assert_eq!(value, x);
    assert_eq!(value, y);
}

#[test]
fn map_of_entries_comes_back_in_order_with_duplicates() {
    let map: Vec<(String, i32)> = vec![
        ("b".to_string(), 2),
        ("a".to_string(), -1),
        ("b".to_string(), 3),
    ];
    let mut bytes = Vec::new();
    let n = pack_map(&mut bytes, &map);
    assert_eq!(n, bytes.len());
    assert_eq!(bytes, vec![0x83, 0xa1, b'b', 0x02, 0xa1, b'a', 0xff, 0xa1, b'b', 0x03]);
    let (o, x): (usize, Vec<(String, i32)>) = unpack_map(&bytes).unwrap();
    let (p, y): (usize, Vec<(String, i32)>) =
        unpack_map_iter(&mut bytes.into_iter().peekable()).unwrap();
    assert_eq!(n, o);
    assert_eq!(n, p);
    assert_eq!(map, x);
    assert_eq!(map, y);
}

fn array_of(len: usize) {
    let value: Vec<u8> = (0..len).map(|i| (i % 100) as u8).collect();
    let mut bytes = Vec::new();
    let n = pack_array(&mut bytes, &value);
    assert_eq!(n, bytes.len());
    let (o, x): (usize, Vec<u8>) = {
        let (o, x) = unpack_array::<u8>(&bytes).unwrap();
        (o, x)
    };
    let (p, y) = unpack_array_iter::<_, u8>(&mut bytes.into_iter().peekable()).unwrap();
    assert_eq!(n, o);
    assert_eq!(n, p);
    assert_eq!(value, x);
    assert_eq!(value, y);
}

#[test]
fn arrays_of_every_header() {
    array_of(0);
    array_of(15);
    array_of(16);
    array_of(65535);
    array_of(65536);
}

#[test]
fn collection_headers_are_the_narrowest() {
    let mut b = Vec::new();
    assert_eq!(pack_array_len(&mut b, 0), 1);
    assert_eq!(pack_array_len(&mut b, 15), 1);
    assert_eq!(pack_array_len(&mut b, 16), 3);
    assert_eq!(pack_array_len(&mut b, 65535), 3);
    assert_eq!(pack_array_len(&mut b, 65536), 5);
    assert_eq!(
        b,
        vec![0x90, 0x9f, 0xdc, 0x00, 0x10, 0xdc, 0xff, 0xff, 0xdd, 0x00, 0x01, 0x00, 0x00]
    );
    let mut b = Vec::new();
    assert_eq!(pack_map_len(&mut b, 0), 1);
    assert_eq!(pack_map_len(&mut b, 15), 1);
    assert_eq!(pack_map_len(&mut b, 16), 3);
    assert_eq!(pack_map_len(&mut b, 65536), 5);
    assert_eq!(b, vec![0x80, 0x8f, 0xde, 0x00, 0x10, 0xdf, 0x00, 0x01, 0x00, 0x00]);
}

#[test]
fn headers_come_back() {
    assert_eq!(unpack_array_len(&[0x93]).unwrap(), (1, 3));
    assert_eq!(unpack_array_len(&[0xdc, 0x01, 0x02]).unwrap(), (3, 258));
    assert_eq!(unpack_array_len(&[0xdd, 0, 1, 0, 2, 9]).unwrap(), (5, 65538));
    assert_eq!(unpack_map_len(&[0x8f]).unwrap(), (1, 15));
    assert_eq!(unpack_map_len(&[0xde, 0x00, 0x02]).unwrap(), (3, 2));
    assert_eq!(unpack_map_len(&[0xdf, 0, 0, 0, 2]).unwrap(), (5, 2));
    assert_eq!(unpack_array_len(&[0x83]).unwrap_err(), Error::UnexpectedFormatTag);
    assert_eq!(unpack_map_len(&[0x93]).unwrap_err(), Error::UnexpectedFormatTag);
    assert_eq!(unpack_array_len(&[]).unwrap_err(), Error::BufferTooShort);
    assert_eq!(unpack_array_len(&[0xdc, 0]).unwrap_err(), Error::BufferTooShort);
}

#[test]
fn large_header_reserves_nothing() {
    // An array that announces four thousand million elements and holds one.
    let bytes = [0xdd, 0xff, 0xff, 0xff, 0xff, 0x01];
    assert_eq!(unpack_array::<u8>(&bytes).unwrap_err(), Error::BufferTooShort);
    assert_eq!(
        unpack_array_iter::<_, u8>(&mut bytes.to_vec().into_iter().peekable()).unwrap_err(),
        Error::BufferTooShort
    );
    let bytes = [0xdf, 0xff, 0xff, 0xff, 0xff, 0x01, 0x02];
    assert_eq!(unpack_map::<u8, u8>(&bytes).unwrap_err(), Error::BufferTooShort);
}

#[test]
fn failures_inside_a_collection_surface() {
    assert_eq!(unpack_array::<u8>(&[0x92, 0x01, 0xc3]).unwrap_err(), Error::UnexpectedFormatTag);
    assert_eq!(unpack_array::<u8>(&[0x92, 0x01]).unwrap_err(), Error::BufferTooShort);
    assert_eq!(
        unpack_array::<String>(&[0x91, 0xa1, 0xff]).unwrap_err(),
        Error::InvalidUtf8
    );
    assert_eq!(
        unpack_map::<u8, bool>(&[0x81, 0x01, 0x01]).unwrap_err(),
        Error::UnexpectedFormatTag
    );
    assert_eq!(unpack_map::<u8, bool>(&[0x81, 0x01]).unwrap_err(), Error::BufferTooShort);
    assert_eq!(unpack_seq::<u8>(&[1, 2, 3], 2).unwrap(), (2, vec![1, 2]));
    assert_eq!(unpack_seq::<u8>(&[1, 2, 3], 0).unwrap(), (0, vec![]));
}
