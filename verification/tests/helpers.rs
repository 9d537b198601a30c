use msgpacker::buffer::{put, put_num, take};
use msgpacker::helpers::{
    take_buffer, take_buffer_iter, take_byte, take_byte_iter, take_num, take_num_iter, to_signed,
    to_unsigned,
};
use msgpacker::{Error, Family, Format, MessageFormat};

#[test]
fn slice_cursor_advances_in_place() {
    let data = [1u8, 2, 3, 4, 5, 6, 7];
    let mut buf = &data[..];
    assert_eq!(take_byte(&mut buf), Ok(1));
    assert_eq!(buf, &[2, 3, 4, 5, 6, 7]);
    assert_eq!(take_num(&mut buf, 2), Ok(0x0203));
    assert_eq!(buf, &[4, 5, 6, 7]);
    assert_eq!(take_buffer(&mut buf, 3), Ok(&[4u8, 5, 6][..]));
    assert_eq!(buf, &[7]);
    assert_eq!(take_num(&mut buf, 2), Err(Error::BufferTooShort));
    assert_eq!(take_buffer(&mut buf, 2), Err(Error::BufferTooShort));
    assert_eq!(buf, &[7]);
    assert_eq!(take_byte(&mut buf), Ok(7));
    assert_eq!(take_byte(&mut buf), Err(Error::BufferTooShort));
    assert_eq!(take_num(&mut buf, 0), Ok(0));
    assert_eq!(take_buffer(&mut buf, 0), Ok(&[][..]));
}

#[test]
fn iterator_cursor_consumes() {
    let mut it = vec![1u8, 2, 3, 4, 5, 6, 7].into_iter();
    assert_eq!(take_byte_iter(&mut it), Ok(1));
    assert_eq!(take_num_iter(&mut it, 2), Ok(0x0203));
    assert_eq!(take_buffer_iter(&mut it, 3), Ok(vec![4, 5, 6]));
    assert_eq!(take_num_iter(&mut it, 2), Err(Error::BufferTooShort));
    assert_eq!(take_byte_iter(&mut it), Err(Error::BufferTooShort));
    assert_eq!(take_buffer_iter(&mut it, 0), Ok(vec![]));
    assert_eq!(take_buffer_iter(&mut it, 1), Err(Error::BufferTooShort));
}

#[test]
fn numbers_are_big_endian() {
    let data = [0x01u8, 0x02, 0x03, 0x04, 0x05, 0x06, 0x07, 0x08];
    assert_eq!(take_num(&mut &data[..], 1), Ok(0x01));
    assert_eq!(take_num(&mut &data[..], 4), Ok(0x0102_0304));
    assert_eq!(take_num(&mut &data[..], 8), Ok(0x0102_0304_0506_0708));
    assert_eq!(take_num_iter(&mut data.to_vec().into_iter(), 8), Ok(0x0102_0304_0506_0708));
    let mut buf = vec![0xaa];
    put_num(&mut buf, 0x0102_0304_0506_0708, 8);
    put_num(&mut buf, 0x0102_0304_0506_0708, 2);
    put_num(&mut buf, 0xffee, 4);
    put_num(&mut buf, 0xffee, 0);
    assert_eq!(buf, vec![0xaa, 1, 2, 3, 4, 5, 6, 7, 8, 7, 8, 0, 0, 0xff, 0xee]);
    assert_eq!(put(&mut buf, &[9, 9]), 2);
    assert_eq!(buf.len(), 17);
    assert_eq!(&buf[15..], &[9, 9]);
}

#[test]
fn twos_complement_both_ways() {
    assert_eq!(to_unsigned(-1, 1), 0xff);
    assert_eq!(to_unsigned(-128, 1), 0x80);
    assert_eq!(to_unsigned(127, 1), 0x7f);
    assert_eq!(to_unsigned(-1, 2), 0xffff);
    assert_eq!(to_unsigned(-2, 4), 0xffff_fffe);
    assert_eq!(to_unsigned(i64::MIN, 8), 0x8000_0000_0000_0000);
    assert_eq!(to_unsigned(-1, 8), u64::MAX);
    assert_eq!(to_signed(0xff, 1), -1);
    assert_eq!(to_signed(0x80, 1), -128);
    assert_eq!(to_signed(0x7f, 1), 127);
    assert_eq!(to_signed(0xfffe, 2), -2);
    assert_eq!(to_signed(0x8000_0000, 4), i32::MIN as i64);
    assert_eq!(to_signed(u64::MAX, 8), -1);
    assert_eq!(to_signed(0x8000_0000_0000_0000, 8), i64::MIN);
    assert_eq!(to_signed(0x7fff_ffff_ffff_ffff, 8), i64::MAX);
}

#[test]
fn every_byte_is_the_byte_of_its_tag() {
    for b in 0..=255u8 {
        let tag = MessageFormat::from_byte(b);
        assert_eq!(tag.to_byte(), b);
        assert_eq!(u8::from(MessageFormat::from(b)), b);
        assert_eq!(msgpacker::format::family(b), tag.family());
    }
}

#[test]
fn tag_table() {
    assert_eq!(MessageFormat::from_byte(0x00), MessageFormat::PositiveFixint(0));
    assert_eq!(MessageFormat::from_byte(0x7f), MessageFormat::PositiveFixint(127));
    assert_eq!(MessageFormat::from_byte(0x80), MessageFormat::FixMap(0));
    assert_eq!(MessageFormat::from_byte(0x8f), MessageFormat::FixMap(15));
    assert_eq!(MessageFormat::from_byte(0x90), MessageFormat::FixArray(0));
    assert_eq!(MessageFormat::from_byte(0x9f), MessageFormat::FixArray(15));
    assert_eq!(MessageFormat::from_byte(0xa0), MessageFormat::FixStr(0));
    assert_eq!(MessageFormat::from_byte(0xbf), MessageFormat::FixStr(31));
    assert_eq!(MessageFormat::from_byte(0xc0), MessageFormat::Nil);
    assert_eq!(MessageFormat::from_byte(0xc1), MessageFormat::Reserved);
    assert_eq!(MessageFormat::from_byte(0xc2), MessageFormat::False);
    assert_eq!(MessageFormat::from_byte(0xc3), MessageFormat::True);
    assert_eq!(MessageFormat::from_byte(0xc4), MessageFormat::Bin8);
    assert_eq!(MessageFormat::from_byte(0xc6), MessageFormat::Bin32);
    assert_eq!(MessageFormat::from_byte(0xc7), MessageFormat::Ext8);
    assert_eq!(MessageFormat::from_byte(0xc9), MessageFormat::Ext32);
    assert_eq!(MessageFormat::from_byte(0xca), MessageFormat::Float32);
    assert_eq!(MessageFormat::from_byte(0xcb), MessageFormat::Float64);
    assert_eq!(MessageFormat::from_byte(0xcc), MessageFormat::Uint8);
    assert_eq!(MessageFormat::from_byte(0xcf), MessageFormat::Uint64);
    assert_eq!(MessageFormat::from_byte(0xd0), MessageFormat::Int8);
    assert_eq!(MessageFormat::from_byte(0xd3), MessageFormat::Int64);
    assert_eq!(MessageFormat::from_byte(0xd4), MessageFormat::FixExt1);
    assert_eq!(MessageFormat::from_byte(0xd8), MessageFormat::FixExt16);
    assert_eq!(MessageFormat::from_byte(0xd9), MessageFormat::Str8);
    assert_eq!(MessageFormat::from_byte(0xdb), MessageFormat::Str32);
    assert_eq!(MessageFormat::from_byte(0xdc), MessageFormat::Array16);
    assert_eq!(MessageFormat::from_byte(0xdd), MessageFormat::Array32);
    assert_eq!(MessageFormat::from_byte(0xde), MessageFormat::Map16);
    assert_eq!(MessageFormat::from_byte(0xdf), MessageFormat::Map32);
    assert_eq!(MessageFormat::from_byte(0xe0), MessageFormat::NegativeFixInt(-32));
    assert_eq!(MessageFormat::from_byte(0xff), MessageFormat::NegativeFixInt(-1));
    assert_eq!(MessageFormat::FixStr(5).to_byte(), 0xa5);
    assert_eq!(MessageFormat::NegativeFixInt(-7).to_byte(), 0xf9);
    assert_eq!(MessageFormat::Reserved.to_byte(), 0xc1);
    assert_eq!(Format::NIL, 0xc0);
    assert_eq!(Format::MAP32, 0xdf);
    assert_eq!(Format::FIXEXT16, 0xd8);
    assert_eq!(msgpacker::format::family(0xc1), Family::Reserved);
    assert_eq!(msgpacker::format::family(0xd5), Family::Extension);
    assert_eq!(msgpacker::format::family(0xcb), Family::Float);
}

#[test]
fn error_messages() {
    assert_eq!(Error::BufferTooShort.message(), "BufferTooShort");
    assert_eq!(Error::InvalidEnumVariant.message(), "InvalidEnumVariant");
    assert_eq!(Error::InvalidExtension.message(), "InvalidExtension");
    assert_eq!(Error::InvalidUtf8.message(), "InvalidUtf8");
    assert_eq!(Error::UnexpectedFormatTag.message(), "UnexpectedFormatTag");
    assert_eq!(Error::UnexpectedArrayLength.message(), "UnexpectedArrayLength");
    assert_eq!(Error::NotImplemented.message(), "NotImplemented");
}

#[test]
fn take_fills_the_front_of_the_buffer() {
    let data = [1u8, 2, 3, 4];
    let mut reader = &data[..];
    let mut buf = [9u8; 5];
    assert_eq!(take(&mut reader, &mut buf, 3), Ok(()));
    assert_eq!(buf, [1, 2, 3, 9, 9]);
    assert_eq!(reader, &[4]);
    assert_eq!(take(&mut reader, &mut buf, 2), Err(Error::BufferTooShort));
    assert_eq!(buf, [1, 2, 3, 9, 9]);
    assert_eq!(reader, &[4]);
    assert_eq!(take(&mut reader, &mut buf, 0), Ok(()));
    assert_eq!(take(&mut reader, &mut buf, 1), Ok(()));
    assert_eq!(buf, [4, 2, 3, 9, 9]);
    assert!(reader.is_empty());
}
