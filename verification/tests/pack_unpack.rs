use msgpacker::{
    Extension, Float, Integer, MapEntry, Message, MessageRef, Packable, Timestamp,
};

fn text(len: usize) -> String {
    String::from_utf8(vec![b'a'; len]).unwrap()
}

fn cases() -> Vec<Message> {
    let mut cases = vec![
        Message::Nil,
        Message::Boolean(true),
        Message::Boolean(false),
        Message::Integer(Integer::signed(i64::MIN)),
        Message::Integer(Integer::signed(i32::MIN as i64 - 1)),
        Message::Integer(Integer::signed(i32::MIN as i64)),
        Message::Integer(Integer::signed(i16::MIN as i64 - 1)),
        Message::Integer(Integer::signed(i16::MIN as i64)),
        Message::Integer(Integer::signed(i8::MIN as i64 - 1)),
        Message::Integer(Integer::signed(i8::MIN as i64)),
        Message::Integer(Integer::signed(-33)),
        Message::Integer(Integer::signed(-32)),
        Message::Integer(Integer::signed(-1)),
        Message::Integer(Integer::unsigned(0u64)),
        Message::Integer(Integer::unsigned(1u64)),
        Message::Integer(Integer::unsigned(127u64)),
        Message::Integer(Integer::unsigned(128u64)),
        Message::Integer(Integer::unsigned(u8::MAX as u64)),
        Message::Integer(Integer::unsigned(u8::MAX as u64 + 1)),
        Message::Integer(Integer::unsigned(u16::MAX as u64)),
        Message::Integer(Integer::unsigned(u16::MAX as u64 + 1)),
        Message::Integer(Integer::unsigned(u32::MAX as u64)),
        Message::Integer(Integer::unsigned(u32::MAX as u64 + 1)),
        Message::Integer(Integer::unsigned(u64::MAX)),
        Message::Float(Float::F32(f32::EPSILON.to_bits())),
        Message::Float(Float::F32(f32::MIN.to_bits())),
        Message::Float(Float::F32(f32::MIN_POSITIVE.to_bits())),
        Message::Float(Float::F32(f32::MAX.to_bits())),
        Message::Float(Float::F32(f32::INFINITY.to_bits())),
        Message::Float(Float::F32(f32::NEG_INFINITY.to_bits())),
        Message::Float(Float::F64(f64::EPSILON.to_bits())),
        Message::Float(Float::F64(f64::MIN.to_bits())),
        Message::Float(Float::F64(f64::MIN_POSITIVE.to_bits())),
        Message::Float(Float::F64(f64::MAX.to_bits())),
        Message::Float(Float::F64(f64::INFINITY.to_bits())),
        Message::Float(Float::F64(f64::NEG_INFINITY.to_bits())),
        Message::String(String::from("")),
        Message::String(text(31)),
        Message::String(text(32)),
        Message::String(text(u8::MAX as usize)),
        Message::String(text(u8::MAX as usize + 1)),
        Message::String(text(u16::MAX as usize)),
        Message::String(text(u16::MAX as usize + 1)),
        Message::Bin(vec![]),
        Message::Bin(vec![0xbe; 31]),
        Message::Bin(vec![0xef; 32]),
        Message::Bin(vec![0xbe; u8::MAX as usize]),
        Message::Bin(vec![0xef; u8::MAX as usize + 1]),
        Message::Bin(vec![0xbe; u16::MAX as usize]),
        Message::Bin(vec![0xef; u16::MAX as usize + 1]),
        Message::Extension(Extension::FixExt1(-2, 1)),
        Message::Extension(Extension::FixExt2(-2, [1; 2])),
        Message::Extension(Extension::FixExt4(-2, [1; 4])),
        Message::Extension(Extension::FixExt8(-2, [1; 8])),
        Message::Extension(Extension::FixExt16(-2, [1; 16])),
        Message::Extension(Extension::Ext(-2, vec![])),
        Message::Extension(Extension::Ext(-2, vec![1; u8::MAX as usize])),
        Message::Extension(Extension::Ext(-2, vec![1; u8::MAX as usize + 1])),
        Message::Extension(Extension::Ext(-2, vec![1; u16::MAX as usize])),
        Message::Extension(Extension::Ext(-2, vec![1; u16::MAX as usize + 1])),
        Message::Extension(Extension::Timestamp(Timestamp::new(0, 0))),
        Message::Extension(Extension::Timestamp(Timestamp::new(1, 0))),
        Message::Extension(Extension::Timestamp(Timestamp::new(u32::MAX as u64, 0))),
        Message::Extension(Extension::Timestamp(Timestamp::new(u32::MAX as u64 + 1, 0))),
        Message::Extension(Extension::Timestamp(Timestamp::new(u32::MAX as u64 + 1, 1))),
        Message::Extension(Extension::Timestamp(Timestamp::new(
            u32::MAX as u64 + 1,
            (1u32 << 30) - 1,
        ))),
        Message::Extension(Extension::Timestamp(Timestamp::new((1u64 << 34) - 1, 10000))),
        Message::Extension(Extension::Timestamp(Timestamp::new(1u64 << 34, 10000))),
        Message::Extension(Extension::Timestamp(Timestamp::new(u64::MAX, 10000))),
    ];

    let map = cases
        .as_slice()
        .windows(2)
        .map(|w| MapEntry::new(w[0].clone(), w[1].clone()))
        .collect();

    cases.push(Message::Mapping(map));
    cases.push(Message::Array(cases.clone()));
    cases
}

#[test]
fn pack_unpack() {
    let cases = cases();

    for m in &cases {
        let mut buf_msg = Vec::new();
        let n = m.pack(&mut buf_msg);
        assert_eq!(n, buf_msg.len());
        assert_eq!(n, m.packed_len());

        let (o, m_p) = Message::unpack(&buf_msg).expect("failed to unpack");
        assert_eq!(n, o);

        let m_ref = m.to_ref();
        let m_o = m_ref.clone().into_owned();

        let mut buf_ref = Vec::new();
        let p = m_ref.pack(&mut buf_ref);
        assert_eq!(n, p);
        assert_eq!(n, m_ref.packed_len());

        let (q, m_ref_p) = MessageRef::unpack(&buf_ref).expect("failed to unpack");
        assert_eq!(n, q);

        let (r, m_i) = Message::unpack_iter(&mut buf_msg.clone().into_iter().peekable())
            .expect("failed to unpack");
        assert_eq!(n, r);

        assert_eq!(buf_msg, buf_ref);
        assert_eq!(m, &m_o);
        assert_eq!(m, &m_p);
        assert_eq!(m, &m_i);
        assert_eq!(m_ref, m_ref_p);
    }

    let mut buffer = Vec::new();
    for m in &cases {
        m.pack(&mut buffer);
    }

    let mut rest = buffer.as_slice();
    let cases_p: Vec<Message> = (0..cases.len())
        .map(|_| {
            let (n, m) = Message::unpack(rest).expect("failed to unpack");
            rest = &rest[n..];
            m
        })
        .collect();

    // Assert serial reconstruction
    assert_eq!(cases, cases_p);
    assert!(rest.is_empty());

    let mut bytes = buffer.into_iter().peekable();
    for m in &cases {
        let (_, m_i) = Message::unpack_iter(&mut bytes).expect("failed to unpack");
        assert_eq!(m, &m_i);
    }
    assert!(bytes.next().is_none());
}

#[test]
fn packable_trait_agrees_with_the_message() {
    for m in cases().iter().take(40) {
        let mut a = Vec::new();
        let mut b = Vec::new();
        <Message as Packable>::pack(m, &mut a);
        Message::pack(m, &mut b);
        assert_eq!(a, b);
        assert_eq!(msgpacker::pack_to_vec(&m.to_ref()), a);
    }
}
