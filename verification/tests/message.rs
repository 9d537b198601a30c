use msgpacker::{
    Error, Extension, ExtensionRef, Float, Integer, MapEntry, MapEntryRef, Message, MessageRef,
    Timestamp, Unpackable,
};

#[test]
fn integer_lanes() {
    assert_eq!(Integer::unsigned(5u8), Integer::Uint64(5));
    assert_eq!(Integer::unsigned(70000u32), Integer::Uint64(70000));
    assert_eq!(Integer::signed(-5i8), Integer::Int64(-5));
    assert_eq!(Integer::signed(-70000i32), Integer::Int64(-70000));
    assert_eq!(Integer::Uint64(5).as_u64(), Some(5));
    assert_eq!(Integer::Uint64(5).as_i64(), None);
    assert_eq!(Integer::Int64(-5).as_i64(), Some(-5));
    assert_eq!(Integer::Int64(-5).as_u64(), None);
    assert_eq!(Integer::Int64(-5).as_signed(), -5);
    assert_eq!(Integer::Uint64(5).as_signed(), 5);
    assert_eq!(Integer::Uint64(u64::MAX).as_signed(), -1);
    assert_eq!(Integer::Uint64(1 << 63).as_signed(), i64::MIN);
    assert_eq!(Integer::Uint64(5).as_unsigned(), 5);
    assert_eq!(Integer::Int64(5).as_unsigned(), 5);
    assert_eq!(Integer::Int64(-1).as_unsigned(), u64::MAX);
    assert_eq!(Integer::Int64(i64::MIN).as_unsigned(), 1 << 63);
    assert_eq!(u64::from(Integer::Int64(-2)), u64::MAX - 1);
    assert_eq!(i64::from(Integer::Uint64(7)), 7);
}

#[test]
fn integer_takes_the_narrowest_form_of_all() {
    let pack = |i: Integer| {
        let mut b = Vec::new();
        assert_eq!(i.pack(&mut b), b.len());
        assert_eq!(i.packed_len(), b.len());
        b
    };
    // A number that is not negative is written the same from either lane.
    for v in [0i64, 127, 128, 255, 256, 65535, 65536, 0xffff_ffff, 0x1_0000_0000, i64::MAX] {
        assert_eq!(pack(Integer::Int64(v)), pack(Integer::Uint64(v as u64)));
    }
    assert_eq!(pack(Integer::Int64(200)), vec![0xcc, 200]);
    assert_eq!(pack(Integer::Int64(40000)), vec![0xcd, 0x9c, 0x40]);
    assert_eq!(pack(Integer::Int64(-128)), vec![0xd0, 0x80]);
    assert_eq!(pack(Integer::Int64(i16::MIN as i64)), vec![0xd1, 0x80, 0x00]);
    assert_eq!(pack(Integer::Int64(i32::MIN as i64)), vec![0xd2, 0x80, 0x00, 0x00, 0x00]);
    assert_eq!(pack(Integer::Int64(i32::MIN as i64 - 1)).len(), 9);
    assert_eq!(pack(Integer::Uint64(u64::MAX)).len(), 9);
}

#[test]
fn integer_comes_back_in_the_lane_of_its_sign() {
    assert_eq!(Integer::unpack(&[0xcc, 200]).unwrap(), (2, Integer::Uint64(200)));
    assert_eq!(Integer::unpack(&[0x05]).unwrap(), (1, Integer::Uint64(5)));
    assert_eq!(Integer::unpack(&[0xff]).unwrap(), (1, Integer::Int64(-1)));
    assert_eq!(Integer::unpack(&[0xd0, 0x05]).unwrap(), (2, Integer::Int64(5)));
    assert_eq!(Integer::unpack(&[0xd1, 0xff, 0xfe]).unwrap(), (3, Integer::Int64(-2)));
    assert_eq!(
        Integer::unpack(&[0xcf, 255, 255, 255, 255, 255, 255, 255, 255]).unwrap(),
        (9, Integer::Uint64(u64::MAX))
    );
    let mut b = Vec::new();
    Integer::Int64(200).pack(&mut b);
    assert_eq!(Integer::unpack(&b).unwrap().1, Integer::Uint64(200));
    assert_eq!(
        Integer::unpack_iter(&mut b.into_iter().peekable()).unwrap(),
        (2, Integer::Uint64(200))
    );
    assert_eq!(Integer::unpack(&[0xc0]).unwrap_err(), Error::UnexpectedFormatTag);
    assert_eq!(Integer::unpack(&[]).unwrap_err(), Error::BufferTooShort);
}

#[test]
fn floats_keep_their_bits() {
    for bits in [0u32, 1, 0x7fc0_0000, 0x7f80_0001, 0xffff_ffff, f32::MIN_POSITIVE.to_bits()] {
        let f = Float::F32(bits);
        let mut b = Vec::new();
        assert_eq!(f.pack(&mut b), 5);
        assert_eq!(b[0], 0xca);
        assert_eq!(&b[1..], &bits.to_be_bytes());
        assert_eq!(Float::unpack(&b).unwrap(), (5, f));
        assert_eq!(Float::unpack_iter(&mut b.into_iter().peekable()).unwrap(), (5, f));
        assert_eq!(f.bits32(), Some(bits));
        assert_eq!(f.bits64(), None);
    }
    for bits in [0u64, 1, 0x7ff8_0000_0000_0000, u64::MAX, 1.5f64.to_bits()] {
        let f = Float::F64(bits);
        let mut b = Vec::new();
        assert_eq!(f.pack(&mut b), 9);
        assert_eq!(b[0], 0xcb);
        assert_eq!(&b[1..], &bits.to_be_bytes());
        assert_eq!(Float::unpack(&b).unwrap(), (9, f));
        assert_eq!(f.bits64(), Some(bits));
        assert_eq!(f.bits32(), None);
    }
    assert_eq!(Float::unpack(&[0xca, 0, 0, 0]).unwrap_err(), Error::BufferTooShort);
    assert_eq!(Float::unpack(&[0xc0]).unwrap_err(), Error::UnexpectedFormatTag);
    // A number in single precision is not read as one in double precision.
    assert_eq!(
        Message::unpack(&[0xca, 0x3f, 0xc0, 0, 0]).unwrap().1,
        Message::Float(Float::F32(1.5f32.to_bits()))
    );
}

#[test]
fn message_accessors() {
    let m = Message::Integer(Integer::Uint64(3));
    assert_eq!(m.as_integer(), Some(Integer::Uint64(3)));
    assert_eq!(m.as_boolean(), None);
    assert!(!m.is_nil());
    assert!(Message::Nil.is_nil());
    assert_eq!(Message::Boolean(true).as_boolean(), Some(true));
    assert_eq!(Message::Float(Float::F32(1)).as_float(), Some(Float::F32(1)));
    assert_eq!(Message::String("s".into()).as_string(), Some("s"));
    assert_eq!(Message::Bin(vec![1]).as_bin(), Some(&[1u8][..]));
    assert_eq!(Message::Array(vec![Message::Nil]).as_array(), Some(&[Message::Nil][..]));
    let entry = MapEntry::new(Message::Nil, Message::Boolean(false));
    assert_eq!(entry.key(), &Message::Nil);
    assert_eq!(entry.val(), &Message::Boolean(false));
    assert_eq!(entry.inner(), (&Message::Nil, &Message::Boolean(false)));
    assert_eq!(Message::Mapping(vec![entry.clone()]).as_map(), Some(&[entry.clone()][..]));
    assert_eq!(entry.to_ref().into_owned(), entry);
    let mut changed = entry.clone();
    *changed.key_mut() = Message::Boolean(true);
    *changed.val_mut() = Message::Nil;
    assert_eq!(changed.into_inner(), (Message::Boolean(true), Message::Nil));
    let e = Extension::Timestamp(Timestamp::new(1, 2));
    assert_eq!(Message::Extension(e.clone()).as_extension(), Some(&e));
    assert_eq!(Message::Nil.as_string(), None);
    assert_eq!(Message::Nil.as_array(), None);
}

#[test]
fn message_ref_accessors_and_builders() {
    assert!(MessageRef::nil().is_nil());
    assert_eq!(MessageRef::boolean(true), MessageRef::Boolean(true));
    assert_eq!(MessageRef::integer_unsigned(5u8), MessageRef::Integer(Integer::Uint64(5)));
    assert_eq!(MessageRef::integer_signed(-5i8), MessageRef::Integer(Integer::Int64(-5)));
    assert_eq!(MessageRef::float32(9), MessageRef::Float(Float::F32(9)));
    assert_eq!(MessageRef::float64(9), MessageRef::Float(Float::F64(9)));
    assert_eq!(MessageRef::float64(9).as_float(), Some(Float::F64(9)));
    assert_eq!(MessageRef::String("s").as_string(), Some("s"));
    assert_eq!(MessageRef::Bin(&[1]).as_bin(), Some(&[1u8][..]));
    assert_eq!(MessageRef::Boolean(false).as_boolean(), Some(false));
    assert_eq!(MessageRef::Integer(Integer::Int64(1)).as_integer(), Some(Integer::Int64(1)));
    assert_eq!(
        MessageRef::Array(vec![MessageRef::Nil]).as_array(),
        Some(&[MessageRef::Nil][..])
    );
    let entry = MapEntryRef::new(MessageRef::Nil, MessageRef::String("v"));
    assert_eq!(entry.key(), &MessageRef::Nil);
    assert_eq!(entry.val(), &MessageRef::String("v"));
    assert_eq!(entry.inner(), (&MessageRef::Nil, &MessageRef::String("v")));
    assert_eq!(entry.clone().into_inner(), (MessageRef::Nil, MessageRef::String("v")));
    assert_eq!(
        MessageRef::Mapping(vec![entry.clone()]).as_map(),
        Some(&[entry.clone()][..])
    );
    let e = ExtensionRef::Ext(3, &[1, 2, 3]);
    assert_eq!(MessageRef::Extension(e.clone()).as_extension(), Some(&e));
    assert_eq!(MessageRef::Nil.as_bin(), None);
}

#[test]
fn borrowed_message_points_into_the_buffer() {
    let bytes = vec![0x92, 0xa3, b'a', b'b', b'c', 0xc4, 0x02, 7, 8];
    let (n, m) = MessageRef::unpack(&bytes).unwrap();
    assert_eq!(n, 9);
    let items = m.as_array().unwrap();
    let s = items[0].as_string().unwrap();
    let b = items[1].as_bin().unwrap();
    assert_eq!(s.as_ptr(), bytes[2..].as_ptr());
    assert_eq!(b.as_ptr(), bytes[7..].as_ptr());
    assert_eq!(
        m.into_owned(),
        Message::Array(vec![Message::String("abc".into()), Message::Bin(vec![7, 8])])
    );
}

#[test]
fn conversions() {
    assert_eq!(Message::from(5u8), Message::Integer(Integer::Uint64(5)));
    assert_eq!(Message::from(5usize), Message::Integer(Integer::Uint64(5)));
    assert_eq!(Message::from(-5i16), Message::Integer(Integer::Int64(-5)));
    assert_eq!(Message::from(-5isize), Message::Integer(Integer::Int64(-5)));
    assert_eq!(Message::from(true), Message::Boolean(true));
    assert_eq!(Message::from(Float::F32(1)), Message::Float(Float::F32(1)));
    assert_eq!(Message::from("s".to_string()), Message::String("s".into()));
    assert_eq!(Message::from(vec![1u8]), Message::Bin(vec![1]));
    assert_eq!(Message::from(vec![Message::Nil]), Message::Array(vec![Message::Nil]));
    assert_eq!(Message::from(Integer::Int64(1)), Message::Integer(Integer::Int64(1)));
    assert_eq!(
        Message::from(Extension::FixExt1(1, 2)),
        Message::Extension(Extension::FixExt1(1, 2))
    );
    assert_eq!(
        Message::from(vec![MapEntry::new(Message::Nil, Message::Nil)]),
        Message::Mapping(vec![MapEntry::new(Message::Nil, Message::Nil)])
    );
    assert_eq!(u8::try_from(Message::from(300u16)), Ok(44));
    assert_eq!(u16::try_from(Message::from(300u16)), Ok(300));
    assert_eq!(u64::try_from(Message::from(-1i8)), Ok(u64::MAX));
    assert_eq!(i8::try_from(Message::from(-1i64)), Ok(-1));
    assert_eq!(i16::try_from(Message::from(u64::MAX)), Ok(-1));
    assert_eq!(i64::try_from(Message::from(7u8)), Ok(7));
    assert_eq!(usize::try_from(Message::from(7u8)), Ok(7));
    assert_eq!(isize::try_from(Message::from(-7i8)), Ok(-7));
    assert_eq!(bool::try_from(Message::Boolean(true)), Ok(true));
    assert_eq!(Float::try_from(Message::Float(Float::F64(2))), Ok(Float::F64(2)));
    assert_eq!(String::try_from(Message::String("s".into())), Ok("s".to_string()));
    assert_eq!(Vec::<u8>::try_from(Message::Bin(vec![1])), Ok(vec![1]));
    assert_eq!(Integer::try_from(Message::from(1u8)), Ok(Integer::Uint64(1)));
    assert_eq!(u8::try_from(Message::Nil), Err(Error::UnexpectedFormatTag));
    assert_eq!(bool::try_from(Message::from(1u8)), Err(Error::UnexpectedFormatTag));
    assert_eq!(String::try_from(Message::Bin(vec![])), Err(Error::UnexpectedFormatTag));
    assert_eq!(Extension::try_from(Message::Nil), Err(Error::UnexpectedFormatTag));
}

#[test]
fn nested_message_fails_like_its_innermost_part() {
    assert_eq!(Message::unpack(&[0x92, 0xc0]).unwrap_err(), Error::BufferTooShort);
    assert_eq!(Message::unpack(&[0x92, 0xc0, 0xc1]).unwrap_err(), Error::UnexpectedFormatTag);
    assert_eq!(Message::unpack(&[0x81, 0xa1, 0xff, 0xc0]).unwrap_err(), Error::InvalidUtf8);
    assert_eq!(Message::unpack(&[0x81, 0xc0]).unwrap_err(), Error::BufferTooShort);
    assert_eq!(
        Message::unpack(&[0x91, 0xc7, 12, 0xff, 255, 255, 255, 255, 255, 255, 255, 255, 255, 255, 255, 255])
            .unwrap_err(),
        Error::InvalidExtension
    );
    let deep: Vec<u8> = std::iter::repeat(0x91).take(500).chain([0xc0]).collect();
    let (n, m) = Message::unpack(&deep).unwrap();
    assert_eq!(n, 501);
    let (p, i) = Message::unpack_iter(&mut deep.clone().into_iter().peekable()).unwrap();
    assert_eq!(p, 501);
    assert_eq!(m, i);
    let mut depth = 0;
    let mut cur = &m;
    while let Some(items) = cur.as_array() {
        depth += 1;
        cur = &items[0];
    }
    assert_eq!(depth, 500);
    assert!(cur.is_nil());
}

#[test]
fn same_is_structural() {
    let a = Message::Array(vec![
        Message::String("k".into()),
        Message::Mapping(vec![MapEntry::new(Message::Nil, Message::Bin(vec![1, 2]))]),
        Message::Extension(Extension::FixExt2(1, [1, 2])),
        Message::Float(Float::F32(1)),
    ]);
    assert!(a.same(&a.clone()));
    assert!(a.to_ref().same(&a.to_ref()));
    let mut b = a.clone();
    if let Message::Array(items) = &mut b {
        items[2] = Message::Extension(Extension::Ext(1, vec![1, 2]));
    }
    // The payload is the same, the kind is not.
    assert!(!a.same(&b));
    assert_ne!(a, b);
    assert!(!Message::Float(Float::F32(1)).same(&Message::Float(Float::F64(1))));
    assert!(!Message::Integer(Integer::Uint64(1)).same(&Message::Integer(Integer::Int64(1))));
    assert!(!Message::Array(vec![]).same(&Message::Mapping(vec![])));
    assert!(!Message::Array(vec![Message::Nil]).same(&Message::Array(vec![])));
    assert!(!Message::String("a".into()).same(&Message::String("b".into())));
    assert!(!Message::String("a".into()).same(&Message::Bin(vec![b'a'])));
    assert!(Message::Extension(Extension::Timestamp(Timestamp::new(1, 2)))
        .same(&Message::Extension(Extension::Timestamp(Timestamp::new(1, 2)))));
    assert!(!Message::Extension(Extension::Timestamp(Timestamp::new(1, 2)))
        .same(&Message::Extension(Extension::Timestamp(Timestamp::new(1, 3)))));
    assert!(ExtensionRef::FixExt1(1, 7).same(&ExtensionRef::FixExt1(1, 7)));
    assert!(!ExtensionRef::FixExt1(1, 7).same(&ExtensionRef::FixExt1(2, 7)));
    assert!(!ExtensionRef::FixExt1(1, 7).same(&ExtensionRef::Ext(1, &[7])));
    assert!(ExtensionRef::FixExt1(1, 7).is_fixed());
    assert!(!ExtensionRef::FixExt2(1, &[7]).is_fixed());
}

#[test]
fn lookup_finds_the_first_entry_under_the_key() {
    let entries = vec![
        MapEntryRef::new(MessageRef::String("a"), MessageRef::Boolean(true)),
        MapEntryRef::new(MessageRef::String("b"), MessageRef::Nil),
        MapEntryRef::new(MessageRef::String("a"), MessageRef::Boolean(false)),
    ];
    let map = MessageRef::Mapping(entries);
    assert_eq!(map.lookup(&MessageRef::String("a")), Some(&MessageRef::Boolean(true)));
    assert_eq!(map.lookup(&MessageRef::String("b")), Some(&MessageRef::Nil));
    assert_eq!(map.lookup(&MessageRef::String("c")), None);
    assert_eq!(map.lookup(&MessageRef::Bin(b"a")), None);
    assert_eq!(MessageRef::Nil.lookup(&MessageRef::Nil), None);
    assert_eq!(MessageRef::Array(vec![MessageRef::Nil]).lookup(&MessageRef::Nil), None);
}
