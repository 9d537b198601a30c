use msgpacker::serde::{Hint, MsgpackDeserializer, MsgpackSerializer};
use msgpacker::{pack_to_vec, Error, Float};

#[test]
fn serializer_writes_what_the_codecs_write() {
    let mut buf = Vec::new();
    {
        let mut s = MsgpackSerializer::from(&mut buf);
        s.serialize_bool(true);
        s.serialize_i8(-1);
        s.serialize_i16(-300);
        s.serialize_i32(70000);
        s.serialize_i64(i64::MIN);
        s.serialize_u8(200);
        s.serialize_u16(300);
        s.serialize_u32(70000);
        s.serialize_u64(u64::MAX);
        s.serialize_float32(1.5f32.to_bits());
        s.serialize_float64(1.5f64.to_bits());
        s.serialize_char('a');
        s.serialize_str("foo");
        s.serialize_bytes(b"foo");
        s.serialize_none();
        s.serialize_unit();
        s.serialize_unit_struct();
        s.serialize_unit_variant(2);
        s.serialize_newtype_variant(3);
        s.serialize_tuple(2);
        s.serialize_tuple_struct(2);
        s.serialize_tuple_variant(4, 2);
        s.serialize_struct(2);
        s.serialize_struct_variant(5, 2);
        s.serialize_element(&"x".to_string());
    }
    let mut expected = Vec::new();
    expected.extend(pack_to_vec(&true));
    expected.extend(pack_to_vec(&-1i8));
    expected.extend(pack_to_vec(&-300i16));
    expected.extend(pack_to_vec(&70000i32));
    expected.extend(pack_to_vec(&i64::MIN));
    expected.extend(pack_to_vec(&200u8));
    expected.extend(pack_to_vec(&300u16));
    expected.extend(pack_to_vec(&70000u32));
    expected.extend(pack_to_vec(&u64::MAX));
    expected.extend(vec![0xca, 0x3f, 0xc0, 0x00, 0x00]);
    expected.extend(vec![0xcb, 0x3f, 0xf8, 0, 0, 0, 0, 0, 0]);
    expected.extend(vec![0x61]);
    expected.extend(vec![0xa3, b'f', b'o', b'o']);
    expected.extend(vec![0xc4, 0x03, b'f', b'o', b'o']);
    expected.extend(vec![0xc0]);
    expected.extend(vec![0x02, 0x03, 0x04, 0x05]);
    expected.extend(vec![0xa1, b'x']);
    assert_eq!(buf, expected);
}

#[test]
fn sequences_need_their_length() {
    let mut buf = vec![7u8];
    let mut s = MsgpackSerializer::from(&mut buf);
    assert_eq!(s.serialize_seq(None), Err(Error::NotImplemented));
    assert_eq!(s.serialize_map(None), Err(Error::NotImplemented));
    assert_eq!(s.serialize_seq(Some(3)), Ok(()));
    assert_eq!(s.serialize_map(Some(16)), Ok(()));
    assert_eq!(buf, vec![7, 0x93, 0xde, 0x00, 0x10]);
}

#[test]
fn deserializer_reads_value_after_value() {
    let mut bytes = Vec::new();
    bytes.extend(pack_to_vec(&true));
    bytes.extend(pack_to_vec(&-300i16));
    bytes.extend(pack_to_vec(&70000u32));
    bytes.extend(vec![0xca, 0x3f, 0xc0, 0x00, 0x00]);
    bytes.extend(pack_to_vec(&'z'));
    bytes.extend(pack_to_vec(&"foo".to_string()));
    bytes.extend(pack_to_vec(&"bar".to_string()));
    bytes.extend(vec![0xc4, 0x02, 1, 2]);
    bytes.extend(vec![0xc4, 0x01, 3]);
    bytes.extend(vec![0xc0, 0x05]);
    bytes.extend(vec![0x92, 0x81]);
    bytes.extend(vec![0x09]);
    let mut d = MsgpackDeserializer(&bytes);
    assert_eq!(d.deserialize_any(), Ok(Hint::Bool));
    assert_eq!(d.deserialize_bool(), Ok(true));
    assert_eq!(d.deserialize_any(), Ok(Hint::I16));
    assert_eq!(d.deserialize_i16(), Ok(-300));
    assert_eq!(d.deserialize_any(), Ok(Hint::U32));
    assert_eq!(d.deserialize_u32(), Ok(70000));
    assert_eq!(d.deserialize_any(), Ok(Hint::Float32));
    assert_eq!(d.deserialize_float(), Ok(Float::F32(1.5f32.to_bits())));
    assert_eq!(d.deserialize_char(), Ok('z'));
    assert_eq!(d.deserialize_any(), Ok(Hint::Str));
    assert_eq!(d.deserialize_str(), Ok("foo"));
    assert_eq!(d.deserialize_string(), Ok("bar".to_string()));
    assert_eq!(d.deserialize_any(), Ok(Hint::Bytes));
    assert_eq!(d.deserialize_bytes(), Ok(&[1u8, 2][..]));
    assert_eq!(d.deserialize_byte_buf(), Ok(vec![3]));
    assert_eq!(d.deserialize_any(), Ok(Hint::Option));
    assert_eq!(d.deserialize_option(), Ok(false));
    assert_eq!(d.deserialize_option(), Ok(true));
    assert_eq!(d.deserialize_u8(), Ok(5));
    assert_eq!(d.deserialize_any(), Ok(Hint::Sequence));
    assert_eq!(d.deserialize_seq(), Ok(2));
    assert_eq!(d.deserialize_any(), Ok(Hint::Mapping));
    assert_eq!(d.deserialize_map(), Ok(1));
    assert_eq!(d.deserialize_unit(), Ok(()));
    assert_eq!(d.deserialize_identifier(), Ok(9));
    assert_eq!(d.0, &[] as &[u8]);
    assert_eq!(d.deserialize_any(), Err(Error::BufferTooShort));
    assert_eq!(d.deserialize_option(), Err(Error::BufferTooShort));
    assert_eq!(d.deserialize_u64(), Err(Error::BufferTooShort));
}

#[test]
fn deserializer_stays_where_it_failed() {
    let bytes = [0xc3u8, 0x01];
    let mut d = MsgpackDeserializer(&bytes);
    assert_eq!(d.deserialize_u8(), Err(Error::UnexpectedFormatTag));
    assert_eq!(d.deserialize_i64(), Err(Error::UnexpectedFormatTag));
    assert_eq!(d.deserialize_str(), Err(Error::UnexpectedFormatTag));
    assert_eq!(d.0, &bytes);
    assert_eq!(d.deserialize::<bool>(), Ok(true));
    assert_eq!(d.deserialize::<msgpacker::Integer>(), Ok(msgpacker::Integer::Uint64(1)));
}

#[test]
fn hints_by_first_byte() {
    let hint = |b: u8| MsgpackDeserializer(&[b]).deserialize_any();
    assert_eq!(hint(0x00), Ok(Hint::U8));
    assert_eq!(hint(0x7f), Ok(Hint::U8));
    assert_eq!(hint(0x80), Ok(Hint::Mapping));
    assert_eq!(hint(0x90), Ok(Hint::Sequence));
    assert_eq!(hint(0xa0), Ok(Hint::Str));
    assert_eq!(hint(0xe0), Ok(Hint::I8));
    assert_eq!(hint(0xc1), Err(Error::UnexpectedFormatTag));
    assert_eq!(hint(0xc2), Ok(Hint::Bool));
    assert_eq!(hint(0xc6), Ok(Hint::Bytes));
    assert_eq!(hint(0xc7), Ok(Hint::ByteBuf));
    assert_eq!(hint(0xd8), Ok(Hint::ByteBuf));
    assert_eq!(hint(0xcb), Ok(Hint::Float64));
    assert_eq!(hint(0xcc), Ok(Hint::U8));
    assert_eq!(hint(0xcd), Ok(Hint::U16));
    assert_eq!(hint(0xcf), Ok(Hint::U64));
    assert_eq!(hint(0xd0), Ok(Hint::I8));
    assert_eq!(hint(0xd2), Ok(Hint::I32));
    assert_eq!(hint(0xd3), Ok(Hint::I64));
    assert_eq!(hint(0xdb), Ok(Hint::Str));
    assert_eq!(hint(0xdd), Ok(Hint::Sequence));
    assert_eq!(hint(0xdf), Ok(Hint::Mapping));
}
