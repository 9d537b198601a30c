use msgpacker::{
    pack_to_vec, Error, Integer, MapEntry, Message, MessageRef, Packable, Unpackable,
};

fn samples() -> Vec<Message> {
    vec![
        Message::Nil,
        Message::Boolean(true),
        Message::Integer(Integer::Uint64(70000)),
        Message::Integer(Integer::Int64(-70000)),
        Message::String("text".to_string()),
        Message::Bin(vec![1, 2, 3]),
        Message::Array(vec![Message::Nil, Message::Array(vec![Message::Boolean(false)])]),
        Message::Mapping(vec![
            MapEntry::new(Message::String("k".into()), Message::Integer(Integer::Uint64(1))),
            MapEntry::new(Message::String("k".into()), Message::Integer(Integer::Uint64(2))),
        ]),
    ]
}

#[test]
fn value_comes_back_whatever_follows_it() {
    for m in samples() {
        let mut bytes = pack_to_vec(&m);
        let n = bytes.len();
        bytes.extend([0xc1, 0xff, 0x00]);
        assert_eq!(Message::unpack(&bytes).unwrap(), (n, m.clone()));
        assert_eq!(MessageRef::unpack(&bytes).unwrap(), (n, m.to_ref()));
        let mut it = bytes.into_iter().peekable();
        assert_eq!(Message::unpack_iter(&mut it).unwrap(), (n, m));
        assert_eq!(it.collect::<Vec<u8>>(), vec![0xc1, 0xff, 0x00]);
    }
}

#[test]
fn count_is_the_growth_of_the_sink() {
    let mut sink = vec![1u8, 2, 3];
    for m in samples() {
        let before = sink.len();
        let n = m.pack(&mut sink);
        assert_eq!(sink.len(), before + n);
        assert_eq!(&sink[..3], &[1, 2, 3]);
        assert_eq!(&sink[before..], pack_to_vec(&m).as_slice());
    }
}

#[test]
fn slice_and_iterator_decoders_agree_on_any_bytes() {
    let mut inputs: Vec<Vec<u8>> = samples().iter().map(pack_to_vec).collect();
    // Bytes that are no value, or only the beginning of one.
    inputs.push(vec![]);
    inputs.push(vec![0xc1]);
    inputs.push(vec![0x92, 0x01]);
    inputs.push(vec![0xa2, 0xff, 0xff]);
    inputs.push(vec![0xd9, 0x05, b'a']);
    inputs.push(vec![0xc7, 12, 0xff, 255, 255, 255, 255, 255, 255, 255, 255, 255, 255, 255, 255]);
    for b in 0..=255u8 {
        inputs.push(vec![b, 0x01, 0x02, 0x03, 0x04, 0x05, 0x06, 0x07, 0x08, 0x09]);
    }
    for bytes in inputs {
        let by_slice = Message::unpack(&bytes);
        let by_iter = Message::unpack_iter(&mut bytes.clone().into_iter().peekable());
        assert_eq!(by_slice, by_iter);
        assert_eq!(u64::unpack(&bytes), u64::unpack_iter(&mut bytes.clone().into_iter().peekable()));
        assert_eq!(i64::unpack(&bytes), i64::unpack_iter(&mut bytes.clone().into_iter().peekable()));
        assert_eq!(
            String::unpack(&bytes),
            String::unpack_iter(&mut bytes.clone().into_iter().peekable())
        );
        assert_eq!(
            <Option<bool>>::unpack(&bytes),
            <Option<bool>>::unpack_iter(&mut bytes.clone().into_iter().peekable())
        );
    }
}

#[test]
fn owned_and_borrowed_decoders_agree_on_any_bytes() {
    let mut inputs: Vec<Vec<u8>> = samples().iter().map(pack_to_vec).collect();
    inputs.push(vec![]);
    inputs.push(vec![0x81, 0xa1]);
    for b in 0..=255u8 {
        inputs.push(vec![b, 0x01, 0xc0, 0x03, 0x04, 0x05, 0x06, 0x07, 0x08, 0x09]);
    }
    for bytes in inputs {
        let owned = Message::unpack(&bytes);
        let borrowed = MessageRef::unpack(&bytes).map(|(n, m)| (n, m.into_owned()));
        assert_eq!(owned, borrowed);
    }
}

#[test]
fn written_integer_is_no_longer_than_any_other_form_of_it() {
    // Every form that a decoder takes for 5.
    let forms: [&[u8]; 9] = [
        &[0x05],
        &[0xcc, 5],
        &[0xcd, 0, 5],
        &[0xce, 0, 0, 0, 5],
        &[0xcf, 0, 0, 0, 0, 0, 0, 0, 5],
        &[0xd0, 5],
        &[0xd1, 0, 5],
        &[0xd2, 0, 0, 0, 5],
        &[0xd3, 0, 0, 0, 0, 0, 0, 0, 5],
    ];
    let written = pack_to_vec(&Integer::Uint64(5));
    for form in forms {
        let (n, i) = Integer::unpack(form).unwrap();
        assert_eq!(n, form.len());
        assert_eq!(i.as_signed(), 5);
        assert!(written.len() <= form.len());
    }
    assert_eq!(pack_to_vec(&Integer::Int64(5)), written);
    // The same for -5 and for a number that needs two bytes.
    for form in [&[0xfbu8][..], &[0xd0, 0xfb], &[0xd1, 0xff, 0xfb], &[0xd2, 255, 255, 255, 0xfb]] {
        assert_eq!(Integer::unpack(form).unwrap().1, Integer::Int64(-5));
        assert!(pack_to_vec(&Integer::Int64(-5)).len() <= form.len());
    }
    for form in [&[0xcdu8, 1, 0][..], &[0xce, 0, 0, 1, 0], &[0xd1, 1, 0], &[0xd2, 0, 0, 1, 0]] {
        assert_eq!(Integer::unpack(form).unwrap().1.as_unsigned(), 256);
        assert!(pack_to_vec(&256u64).len() <= form.len());
        assert!(pack_to_vec(&Integer::Int64(256)).len() <= form.len());
    }
}

#[test]
fn values_that_do_not_come_back_as_they_were() {
    // An integer in the signed lane that is not negative comes back in the other lane.
    let bytes = pack_to_vec(&Integer::Int64(5));
    assert_eq!(Integer::unpack(&bytes).unwrap().1, Integer::Uint64(5));
    // An option of an option cannot tell nothing from nothing inside.
    let bytes = pack_to_vec(&Some(None::<u8>));
    assert_eq!(<Option<Option<u8>>>::unpack(&bytes).unwrap().1, None);
    // An option of the unit has no byte to be read from.
    let bytes = pack_to_vec(&Some(()));
    assert_eq!(<Option<()>>::unpack(&bytes).unwrap_err(), Error::BufferTooShort);
}
