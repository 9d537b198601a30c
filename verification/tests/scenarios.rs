use msgpacker::{
    pack_to_vec, Error, Extension, Integer, MapEntry, Message, MessageRef, MsgPackerBin,
    Packable, Timestamp, Unpackable,
};

#[test]
fn nil_is_one_byte() {
    let mut bytes = Vec::new();
    let n = Message::Nil.pack(&mut bytes);
    assert_eq!(n, 1);
    assert_eq!(bytes, vec![0xc0]);
    let (n, m) = Message::unpack(&[0xc0]).unwrap();
    assert_eq!(n, 1);
    assert_eq!(m, Message::Nil);
    assert_eq!(MessageRef::unpack(&[0xc0]).unwrap(), (1, MessageRef::Nil));
}

#[test]
fn signed_integers_are_narrowed() {
    assert_eq!(pack_to_vec(&-1i64), vec![0xff]);
    assert_eq!(pack_to_vec(&-32i64), vec![0xe0]);
    assert_eq!(pack_to_vec(&-33i64), vec![0xd0, 0xdf]);
    assert_eq!(pack_to_vec(&i64::MIN), vec![0xd3, 0x80, 0, 0, 0, 0, 0, 0, 0]);
    assert_eq!(pack_to_vec(&Integer::signed(-1)), vec![0xff]);
    assert_eq!(pack_to_vec(&Integer::signed(-32)), vec![0xe0]);
    assert_eq!(pack_to_vec(&Integer::signed(-33)), vec![0xd0, 0xdf]);
    assert_eq!(pack_to_vec(&Integer::signed(i64::MIN)), vec![0xd3, 0x80, 0, 0, 0, 0, 0, 0, 0]);
}

#[test]
fn strings_take_the_narrowest_header() {
    assert_eq!(pack_to_vec(&Message::String(String::new())), vec![0xa0]);
    assert_eq!(pack_to_vec(&Message::String("a".repeat(31)))[0], 0xbf);
    assert_eq!(&pack_to_vec(&Message::String("a".repeat(32)))[..2], &[0xd9, 32]);
}

#[test]
fn timestamps_take_the_shortest_of_three_forms() {
    let t = Message::Extension(Extension::Timestamp(Timestamp::new(0, 0)));
    assert_eq!(pack_to_vec(&t), vec![0xd6, 0xff, 0, 0, 0, 0]);

    let t = Message::Extension(Extension::Timestamp(Timestamp::new(1 << 32, 0)));
    assert_eq!(pack_to_vec(&t), vec![0xd7, 0xff, 0, 0, 0, 1, 0, 0, 0, 0]);

    let t = Message::Extension(Extension::Timestamp(Timestamp::new(1 << 34, 0)));
    assert_eq!(
        pack_to_vec(&t),
        vec![0xc7, 12, 0xff, 0, 0, 0, 0, 0, 0, 0, 4, 0, 0, 0, 0]
    );
}

#[test]
fn map_is_header_then_key_then_value() {
    let m = Message::Mapping(vec![MapEntry::new(
        Message::String("some-key".to_string()),
        Message::Integer(Integer::signed(0)),
    )]);
    let bytes = pack_to_vec(&m);
    assert_eq!(
        bytes,
        vec![0x81, 0xa8, b's', b'o', b'm', b'e', b'-', b'k', b'e', b'y', 0x00]
    );
    let entries = [("some-key".to_string(), 0i64)];
    let mut generic = Vec::new();
    assert_eq!(msgpacker::pack::pack_map(&mut generic, &entries), 11);
    assert_eq!(generic, bytes);
}

#[test]
fn byte_buffer_is_binary_and_sequence_is_array() {
    // A record of one field is the field.
    let record = (MsgPackerBin(vec![0xde, 0xad, 0xbe, 0xef]),);
    assert_eq!(pack_to_vec(&record), vec![0xc4, 0x04, 0xde, 0xad, 0xbe, 0xef]);
    let record = (vec![0xdeu8, 0xad, 0xbe, 0xef],);
    assert_eq!(pack_to_vec(&record), vec![0xc4, 0x04, 0xde, 0xad, 0xbe, 0xef]);

    let strings = ["x".to_string(), "y".to_string()];
    let mut bytes = Vec::new();
    msgpacker::pack::pack_array(&mut bytes, &strings);
    assert_eq!(bytes, vec![0x92, 0xa1, b'x', 0xa1, b'y']);

    let shorts = [1u16, 2, 300];
    let mut bytes = Vec::new();
    msgpacker::pack::pack_array(&mut bytes, &shorts);
    assert_eq!(bytes, vec![0x93, 0x01, 0x02, 0xcd, 0x01, 0x2c]);
}

#[test]
fn reserved_byte_is_refused() {
    assert_eq!(Message::unpack(&[0xc1]).unwrap_err(), Error::UnexpectedFormatTag);
    assert_eq!(MessageRef::unpack(&[0xc1]).unwrap_err(), Error::UnexpectedFormatTag);
    let mut it = vec![0xc1u8].into_iter().peekable();
    assert_eq!(
        <Message as Unpackable>::unpack_iter(&mut it).unwrap_err(),
        Error::UnexpectedFormatTag
    );
}
