use msgpacker::{
    pack_to_vec, Error, Extension, ExtensionRef, Packable, SizeableMessage, Timestamp, Unpackable,
};

fn case(x: Extension) {
    let mut bytes = vec![];
    let n = x.pack(&mut bytes);
    assert_eq!(n, bytes.len());
    assert_eq!(n, SizeableMessage::packed_len(&x));
    let (o, y) = Extension::unpack(&bytes).unwrap();
    let (p, z) = Extension::unpack_iter(&mut bytes.clone().into_iter().peekable()).unwrap();
    let (q, r) = ExtensionRef::unpack(&bytes).unwrap();
    assert_eq!(n, o);
    assert_eq!(n, p);
    assert_eq!(n, q);
    assert_eq!(x, y);
    assert_eq!(x, z);
    assert_eq!(x.to_ref(), r);
    assert_eq!(r.into_owned(), x);
}

#[test]
fn extensions_come_back() {
    case(Extension::FixExt1(5, 9));
    case(Extension::FixExt2(-2, [1, 2]));
    case(Extension::FixExt4(7, [1, 2, 3, 4]));
    case(Extension::FixExt8(-128, [8; 8]));
    case(Extension::FixExt16(127, [16; 16]));
    case(Extension::Ext(0, vec![]));
    case(Extension::Ext(1, vec![1, 2, 3]));
    case(Extension::Ext(-1, vec![0; 5]));
    case(Extension::Ext(2, vec![3; 12]));
    case(Extension::Ext(2, vec![3; 255]));
    case(Extension::Ext(2, vec![3; 256]));
    case(Extension::Ext(2, vec![3; 65535]));
    case(Extension::Ext(2, vec![3; 65536]));
    case(Extension::Timestamp(Timestamp::new(0, 0)));
    case(Extension::Timestamp(Timestamp::new(u32::MAX as u64, 0)));
    case(Extension::Timestamp(Timestamp::new(0, 1)));
    case(Extension::Timestamp(Timestamp::new((1 << 34) - 1, 999_999_999)));
    case(Extension::Timestamp(Timestamp::new(1 << 34, 0)));
    case(Extension::Timestamp(Timestamp::new(u64::MAX, 999_999_999)));
}

#[test]
fn extension_forms_are_chosen_by_length() {
    assert_eq!(pack_to_vec(&Extension::FixExt1(5, 9)), vec![0xd4, 5, 9]);
    assert_eq!(pack_to_vec(&Extension::FixExt2(-2, [1, 2])), vec![0xd5, 0xfe, 1, 2]);
    assert_eq!(pack_to_vec(&Extension::FixExt4(1, [1, 2, 3, 4])), vec![0xd6, 1, 1, 2, 3, 4]);
    assert_eq!(pack_to_vec(&Extension::FixExt8(1, [7; 8]))[..2], [0xd7, 1]);
    assert_eq!(pack_to_vec(&Extension::FixExt16(1, [7; 16]))[..2], [0xd8, 1]);
    assert_eq!(pack_to_vec(&Extension::Ext(3, vec![])), vec![0xc7, 0, 3]);
    assert_eq!(pack_to_vec(&Extension::Ext(3, vec![1, 2, 3])), vec![0xc7, 3, 3, 1, 2, 3]);
    assert_eq!(pack_to_vec(&Extension::Ext(3, vec![0; 256]))[..4], [0xc8, 1, 0, 3]);
    assert_eq!(pack_to_vec(&Extension::Ext(3, vec![0; 65536]))[..6], [0xc9, 0, 1, 0, 0, 3]);
    // Overhead: 2 bytes for the fixed forms, then 3, 4 and 6.
    assert_eq!(pack_to_vec(&Extension::FixExt16(1, [7; 16])).len(), 18);
    assert_eq!(pack_to_vec(&Extension::Ext(3, vec![0; 255])).len(), 258);
    assert_eq!(pack_to_vec(&Extension::Ext(3, vec![0; 256])).len(), 260);
    assert_eq!(pack_to_vec(&Extension::Ext(3, vec![0; 65536])).len(), 65542);
    // A payload of a fixed length under the open variant takes the fixed form.
    assert_eq!(pack_to_vec(&Extension::Ext(3, vec![7, 8])), vec![0xd5, 3, 7, 8]);
    assert_eq!(
        Extension::unpack(&[0xd5, 3, 7, 8]).unwrap(),
        (4, Extension::FixExt2(3, [7, 8]))
    );
}

#[test]
fn timestamp_forms() {
    // 8 bytes: the nanoseconds above 34 bits of seconds.
    let t = Extension::Timestamp(Timestamp::new(1, 1));
    assert_eq!(pack_to_vec(&t), vec![0xd7, 0xff, 0, 0, 0, 4, 0, 0, 0, 1]);
    let t = Extension::Timestamp(Timestamp::new((1 << 34) - 1, 999_999_999));
    assert_eq!(
        pack_to_vec(&t),
        vec![0xd7, 0xff, 0xee, 0x6b, 0x27, 0xff, 0xff, 0xff, 0xff, 0xff]
    );
    // 12 bytes: the nanoseconds on 4 bytes, then the seconds on 8.
    let t = Extension::Timestamp(Timestamp::new(u64::MAX, 10000));
    assert_eq!(
        pack_to_vec(&t),
        vec![0xc7, 12, 0xff, 0, 0, 0x27, 0x10, 255, 255, 255, 255, 255, 255, 255, 255]
    );
    // 4 bytes where whole seconds on 32 bits say it all, and only there.
    assert_eq!(pack_to_vec(&Extension::Timestamp(Timestamp::new(u32::MAX as u64, 0))).len(), 6);
    assert_eq!(pack_to_vec(&Extension::Timestamp(Timestamp::new(u32::MAX as u64, 1))).len(), 10);
    assert_eq!(pack_to_vec(&Extension::Timestamp(Timestamp::new(1 << 32, 0))).len(), 10);
    assert_eq!(pack_to_vec(&Extension::Timestamp(Timestamp::new(1 << 34, 0))).len(), 15);
}

#[test]
fn timestamp_carries_whole_seconds_over() {
    assert_eq!(Timestamp::new(1, 1_500_000_000), Timestamp { secs: 2, nanos: 500_000_000 });
    assert_eq!(Timestamp::checked_new(u64::MAX, 999_999_999).unwrap().as_secs(), u64::MAX);
    assert_eq!(Timestamp::checked_new(u64::MAX, 1_000_000_000), None);
    assert_eq!(Timestamp::from_secs(9).subsec_nanos(), 0);
    // 2^30 - 1 nanoseconds in the 8-byte form are a second and some.
    let bytes = [0xd7, 0xff, 0xff, 0xff, 0xff, 0xfc, 0, 0, 0, 5];
    assert_eq!(
        Extension::unpack(&bytes).unwrap(),
        (10, Extension::Timestamp(Timestamp { secs: 6, nanos: 73_741_823 }))
    );
}

#[test]
fn reserved_type_without_timestamp_shape_is_plain() {
    assert_eq!(
        Extension::unpack(&[0xd4, 0xff, 7]).unwrap(),
        (3, Extension::FixExt1(-1, 7))
    );
    assert_eq!(
        Extension::unpack(&[0xc7, 2, 0xff, 7, 8]).unwrap(),
        (5, Extension::Ext(-1, vec![7, 8]))
    );
    // Written under the reserved type, four bytes are read back as a timestamp.
    let bytes = pack_to_vec(&Extension::FixExt4(-1, [0, 0, 0, 9]));
    assert_eq!(
        Extension::unpack(&bytes).unwrap(),
        (6, Extension::Timestamp(Timestamp::from_secs(9)))
    );
}

#[test]
fn invalid_extensions() {
    assert_eq!(Extension::unpack(&[0xc0]).unwrap_err(), Error::InvalidExtension);
    assert_eq!(Extension::unpack(&[0x01]).unwrap_err(), Error::InvalidExtension);
    assert_eq!(ExtensionRef::unpack(&[0xc4, 0]).unwrap_err(), Error::InvalidExtension);
    assert_eq!(
        Extension::unpack_iter(&mut vec![0xc0u8].into_iter().peekable()).unwrap_err(),
        Error::InvalidExtension
    );
    // Seconds that have no room for the seconds among the nanoseconds.
    let bytes = [0xc7, 12, 0xff, 0xff, 0xff, 0xff, 0xff, 255, 255, 255, 255, 255, 255, 255, 255];
    assert_eq!(Extension::unpack(&bytes).unwrap_err(), Error::InvalidExtension);
    assert_eq!(Extension::unpack(&[]).unwrap_err(), Error::BufferTooShort);
    assert_eq!(Extension::unpack(&[0xd4]).unwrap_err(), Error::BufferTooShort);
    assert_eq!(Extension::unpack(&[0xd4, 1]).unwrap_err(), Error::BufferTooShort);
    assert_eq!(Extension::unpack(&[0xd6, 0xff, 0, 0, 0]).unwrap_err(), Error::BufferTooShort);
    assert_eq!(Extension::unpack(&[0xc7, 12, 0xff, 0, 0]).unwrap_err(), Error::BufferTooShort);
    assert_eq!(Extension::unpack(&[0xc8, 0]).unwrap_err(), Error::BufferTooShort);
    assert_eq!(
        Extension::unpack_iter(&mut vec![0xc7u8, 3, 1, 0].into_iter().peekable()).unwrap_err(),
        Error::BufferTooShort
    );
}

#[test]
fn accessors() {
    let one = Extension::FixExt1(4, 0x2a);
    assert_eq!(one.typ(), 4);
    assert_eq!(one.data(), &[0x2a]);
    assert_eq!(one.to_ref().data(), &[0x2a]);
    assert_eq!(one.timestamp(), None);
    let two = Extension::FixExt2(-3, [1, 2]);
    assert_eq!(two.typ(), -3);
    assert_eq!(two.data(), &[1, 2]);
    let open = Extension::Ext(9, vec![1, 2, 3]);
    assert_eq!(open.typ(), 9);
    assert_eq!(open.data(), &[1, 2, 3]);
    let ts = Extension::Timestamp(Timestamp::new(3, 4));
    assert_eq!(ts.typ(), -1);
    assert_eq!(ts.typ(), Extension::TIMESTAMP_TYPE);
    assert!(ts.data().is_empty());
    assert_eq!(ts.timestamp(), Some(&Timestamp { secs: 3, nanos: 4 }));
    assert_eq!(ts.to_ref().timestamp(), Some(&Timestamp { secs: 3, nanos: 4 }));
    assert_eq!(ts.to_ref().typ(), -1);
    assert!(ts.to_ref().data().is_empty());
    assert_eq!(Extension::from(Timestamp::new(3, 4)), ts);
}

#[test]
fn extension_ref_chooses_variant_by_length() {
    assert_eq!(ExtensionRef::extension(1, &[7]), ExtensionRef::FixExt1(1, 7));
    assert_eq!(ExtensionRef::extension(1, &[7, 8]), ExtensionRef::FixExt2(1, &[7, 8]));
    assert_eq!(ExtensionRef::extension(1, &[7; 4]), ExtensionRef::FixExt4(1, &[7; 4]));
    assert_eq!(ExtensionRef::extension(1, &[7; 8]), ExtensionRef::FixExt8(1, &[7; 8]));
    assert_eq!(ExtensionRef::extension(1, &[7; 16]), ExtensionRef::FixExt16(1, &[7; 16]));
    assert_eq!(ExtensionRef::extension(1, &[7; 3]), ExtensionRef::Ext(1, &[7; 3]));
    assert_eq!(ExtensionRef::extension(1, &[]), ExtensionRef::Ext(1, &[]));
    assert_eq!(
        ExtensionRef::extension_timestamp(Timestamp::new(1, 2)),
        ExtensionRef::Timestamp(Timestamp { secs: 1, nanos: 2 })
    );
    // A variant that holds another length than it is made for is owned as a plain payload.
    assert_eq!(
        ExtensionRef::FixExt2(1, &[1, 2, 3]).into_owned(),
        Extension::Ext(1, vec![1, 2, 3])
    );
    assert_eq!(ExtensionRef::FixExt4(1, &[1, 2, 3, 4]).duplicate().typ(), 1);
}
