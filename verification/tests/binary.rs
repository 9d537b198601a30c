use msgpacker::unpack::{unpack_binary, unpack_binary_iter, unpack_str};
use msgpacker::{pack_to_vec, Error, MsgPackerBin, Packable, Unpackable};

#[test]
fn empty_vec() {
    let v = MsgPackerBin(vec![]);
    let mut bytes = vec![];
    let n = v.pack(&mut bytes);
    let (o, x) = MsgPackerBin::unpack(&bytes).unwrap();
    let (p, y) = MsgPackerBin::unpack_iter(&mut bytes.into_iter().peekable()).unwrap();
    assert_eq!(o, n);
    assert_eq!(p, n);
    assert_eq!(v, x);
    assert_eq!(v, y);
}

#[test]
fn empty_str() {
    let s = "";
    let mut bytes = vec![];
    let n = s.pack(&mut bytes);
    let (o, x) = String::unpack(&bytes).unwrap();
    let (p, y) = String::unpack_iter(&mut bytes.into_iter().peekable()).unwrap();
    assert_eq!(o, n);
    assert_eq!(p, n);
    assert_eq!(s, x);
    assert_eq!(s, y);
}

fn text_case(s: String) {
    let mut bytes = vec![];
    let n = s.pack(&mut bytes);
    assert_eq!(n, bytes.len());
    let (o, y) = String::unpack(&bytes).unwrap();
    let (q, borrowed) = unpack_str(&bytes).unwrap();
    assert_eq!(borrowed, s.as_str());
    let (p, z) = String::unpack_iter(&mut bytes.clone().into_iter().peekable()).unwrap();
    assert_eq!(n, o);
    assert_eq!(n, p);
    assert_eq!(n, q);
    assert_eq!(s, y);
    assert_eq!(s, z);
}

#[test]
fn strings_of_every_header() {
    text_case(String::new());
    text_case("a".repeat(31));
    text_case("a".repeat(32));
    text_case("a".repeat(255));
    text_case("a".repeat(256));
    text_case("a".repeat(65535));
    text_case("a".repeat(65536));
    text_case("héllo wörld \u{1F600} 日本語".to_string());
}

#[test]
fn string_headers_are_the_narrowest() {
    assert_eq!(pack_to_vec(&String::new()), vec![0xa0]);
    let b = pack_to_vec(&"a".repeat(31));
    assert_eq!(b[0], 0xbf);
    assert_eq!(b.len(), 32);
    let b = pack_to_vec(&"a".repeat(32));
    assert_eq!(&b[..2], &[0xd9, 32]);
    assert_eq!(b.len(), 34);
    let b = pack_to_vec(&"a".repeat(256));
    assert_eq!(&b[..3], &[0xda, 0x01, 0x00]);
    assert_eq!(b.len(), 259);
    let b = pack_to_vec(&"a".repeat(65536));
    assert_eq!(&b[..5], &[0xdb, 0x00, 0x01, 0x00, 0x00]);
    assert_eq!(b.len(), 65541);
}

#[test]
fn string_length_counts_bytes_not_characters() {
    // Two characters, five bytes.
    let b = pack_to_vec(&"é€".to_string());
    assert_eq!(b, vec![0xa5, 0xc3, 0xa9, 0xe2, 0x82, 0xac]);
}

fn bin_case(data: Vec<u8>) {
    let v = MsgPackerBin(data.clone());
    let mut bytes = vec![];
    let n = v.pack(&mut bytes);
    assert_eq!(n, bytes.len());
    assert_eq!(bytes, pack_to_vec(&data));
    let (o, x) = unpack_binary(&bytes).unwrap();
    assert_eq!(o, n);
    assert_eq!(x, data.as_slice());
    let (p, y) = unpack_binary_iter(&mut bytes.clone().into_iter().peekable()).unwrap();
    assert_eq!(p, n);
    assert_eq!(y, data);
    let (q, z) = Vec::<u8>::unpack(&bytes).unwrap();
    assert_eq!(q, n);
    assert_eq!(z, data);
}

#[test]
fn binary_of_every_header() {
    bin_case(vec![]);
    bin_case(vec![0xbe; 31]);
    bin_case(vec![0xef; 255]);
    bin_case(vec![0xbe; 256]);
    bin_case(vec![0xef; 65535]);
    bin_case(vec![0xbe; 65536]);
}

#[test]
fn binary_headers_are_the_narrowest() {
    assert_eq!(pack_to_vec(&MsgPackerBin(vec![])), vec![0xc4, 0x00]);
    assert_eq!(
        pack_to_vec(&MsgPackerBin(vec![0xde, 0xad, 0xbe, 0xef])),
        vec![0xc4, 0x04, 0xde, 0xad, 0xbe, 0xef]
    );
    let b = pack_to_vec(&MsgPackerBin(vec![7; 256]));
    assert_eq!(&b[..3], &[0xc5, 0x01, 0x00]);
    assert_eq!(b.len(), 259);
    let b = pack_to_vec(&MsgPackerBin(vec![7; 65536]));
    assert_eq!(&b[..5], &[0xc6, 0x00, 0x01, 0x00, 0x00]);
    assert_eq!(b.len(), 65541);
}

#[test]
fn as_slice_packs_like_the_owner() {
    let owner = MsgPackerBin(vec![1, 2, 3]);
    assert_eq!(pack_to_vec(&owner.as_slice()), pack_to_vec(&owner));
    assert_eq!(owner.as_slice().0, &[1, 2, 3]);
}

#[test]
fn decoders_take_headers_wider_than_needed() {
    assert_eq!(unpack_binary(&[0xc5, 0x00, 0x02, 9, 8]).unwrap(), (5, &[9u8, 8][..]));
    assert_eq!(unpack_binary(&[0xc6, 0, 0, 0, 1, 9]).unwrap(), (6, &[9u8][..]));
    assert_eq!(unpack_str(&[0xd9, 0x01, b'x']).unwrap(), (3, "x"));
    assert_eq!(unpack_str(&[0xda, 0x00, 0x01, b'x']).unwrap(), (4, "x"));
    assert_eq!(unpack_str(&[0xdb, 0, 0, 0, 1, b'x', 0xff]).unwrap(), (6, "x"));
}

#[test]
fn invalid_utf8_is_told_from_a_short_buffer() {
    // 0xff is never part of UTF-8.
    assert_eq!(unpack_str(&[0xa1, 0xff]).unwrap_err(), Error::InvalidUtf8);
    assert_eq!(String::unpack(&[0xa2, 0xc3, 0x28]).unwrap_err(), Error::InvalidUtf8);
    assert_eq!(
        String::unpack_iter(&mut vec![0xa1u8, 0xff].into_iter().peekable()).unwrap_err(),
        Error::InvalidUtf8
    );
    // The same body under a binary tag is taken as it comes.
    assert_eq!(unpack_binary(&[0xc4, 0x01, 0xff]).unwrap(), (3, &[0xffu8][..]));
    // A body that is cut short is a short buffer, whatever is in it.
    assert_eq!(unpack_str(&[0xa2, 0xff]).unwrap_err(), Error::BufferTooShort);
    assert_eq!(unpack_str(&[]).unwrap_err(), Error::BufferTooShort);
    assert_eq!(unpack_str(&[0xd9]).unwrap_err(), Error::BufferTooShort);
    assert_eq!(unpack_binary(&[0xc4, 0x02, 0x00]).unwrap_err(), Error::BufferTooShort);
    assert_eq!(unpack_str(&[0xc4, 0x00]).unwrap_err(), Error::UnexpectedFormatTag);
    assert_eq!(unpack_binary(&[0xa0]).unwrap_err(), Error::UnexpectedFormatTag);
}
