use msgpacker::packer::pack_all;
use msgpacker::{
    Error, Extension, Float, Integer, MapEntry, Message, MessagePacker, MessageRef,
    MessageUnpacker, SizeableMessage, Timestamp, UnpackableIter,
};

#[test]
fn packer_collects_the_bytes() {
    let mut sink: Vec<u8> = vec![0xaa];
    assert_eq!(MessagePacker::pack(&mut sink, &true), 1);
    assert_eq!(MessagePacker::pack(&mut sink, &300u16), 3);
    assert_eq!(MessagePacker::pack(&mut sink, &"ab".to_string()), 3);
    assert_eq!(sink, vec![0xaa, 0xc3, 0xcd, 0x01, 0x2c, 0xa2, b'a', b'b']);
    let n = pack_all(&mut sink, &[1u8, 200, 3]);
    assert_eq!(n, 4);
    assert_eq!(&sink[8..], &[0x01, 0xcc, 0xc8, 0x03]);
}

#[test]
fn unpacker_moves_on_by_each_message() {
    let bytes = [0xc3u8, 0xcd, 0x01, 0x2c, 0xa2, b'a', b'b'];
    let mut source = &bytes[..];
    assert_eq!(source.unpack::<bool>(), Ok(true));
    assert_eq!(source.available(), 6);
    assert_eq!(source.unpack::<bool>(), Err(Error::UnexpectedFormatTag));
    assert_eq!(source.available(), 6);
    assert_eq!(source.unpack::<u16>(), Ok(300));
    assert_eq!(source.unpack::<String>(), Ok("ab".to_string()));
    assert_eq!(source.unpack::<u8>(), Err(Error::BufferTooShort));
}

#[test]
fn until_eof_gives_every_message() {
    let bytes = [0x01u8, 0xcc, 0xc8, 0xcd, 0x01, 0x00];
    let mut iter: UnpackableIter<&[u8], u16> = UnpackableIter::new(&bytes);
    assert_eq!(iter.unpack_until_eof(), Ok(vec![1, 200, 256]));
    assert_eq!(iter.unpack_until_eof(), Ok(vec![]));
}

#[test]
fn until_eof_passes_over_a_message_that_is_cut_short() {
    let bytes = [0x01u8, 0xcd, 0x01];
    let mut iter: UnpackableIter<&[u8], u16> = UnpackableIter::new(&bytes);
    assert_eq!(iter.unpack_until_eof(), Ok(vec![1]));
}

#[test]
fn until_eof_stops_at_another_failure() {
    let bytes = [0x01u8, 0xc3, 0x02];
    let mut iter: UnpackableIter<&[u8], u16> = UnpackableIter::new(&bytes);
    assert_eq!(iter.unpack_until_eof(), Err(Error::UnexpectedFormatTag));
}

#[test]
fn until_eof_ends_at_a_value_without_bytes() {
    let bytes = [0x01u8, 0x02];
    let mut iter: UnpackableIter<&[u8], ()> = UnpackableIter::new(&bytes);
    assert_eq!(iter.unpack_until_eof(), Ok(vec![]));
}

fn sized<T: SizeableMessage>(x: T) {
    let mut bytes = Vec::new();
    let n = x.pack(&mut bytes);
    assert_eq!(n, bytes.len());
    assert_eq!(x.packed_len(), n);
}

#[test]
fn packed_len_is_the_number_of_bytes() {
    sized(());
    sized(true);
    for v in [0u64, 127, 128, 255, 256, 65535, 65536, u32::MAX as u64, u32::MAX as u64 + 1] {
        sized(v);
        sized(v as usize);
        sized(v as u32);
        sized(v as u16);
        sized(v as u8);
        sized(Integer::Uint64(v));
        sized(Integer::Int64(v as i64));
        sized(Integer::Int64(-(v as i64)));
        sized(v as i64);
        sized(-(v as i64));
        sized(-(v as i64) - 1);
        sized((v as i64) as i32);
        sized((v as i64) as i16);
        sized((v as i64) as i8);
        sized(-(v as i64) as isize);
    }
    sized(Float::F32(7));
    sized(Float::F64(7));
    sized("a".repeat(31));
    sized("a".repeat(32));
    sized("a".repeat(256));
    sized("a".repeat(70000));
    sized(vec![1u8; 255]);
    sized(vec![1u8; 256]);
    sized(vec![1u8; 70000]);
    sized(Some(5u8));
    sized(None::<u8>);
    sized(Extension::Ext(1, vec![0; 300]));
    sized(Extension::FixExt8(1, [0; 8]));
    sized(Extension::Timestamp(Timestamp::new(1, 1)));
    sized(Extension::Timestamp(Timestamp::new(u64::MAX, 1)));
    let nested = Message::Array(vec![
        Message::Nil,
        Message::String("abc".to_string()),
        Message::Mapping(vec![MapEntry::new(Message::Boolean(true), Message::Bin(vec![1; 300]))]),
        Message::Array((0..20).map(|i| Message::Integer(Integer::Uint64(i * 50))).collect()),
    ]);
    assert_eq!(nested.to_ref().packed_len(), nested.packed_len());
    sized(nested);
    sized(MessageRef::String("abc"));
}
