use msgpacker::{pack_to_vec, Error, Packable, Unpackable};

fn case<T>(x: T)
where
    T: Packable + Unpackable + PartialEq + core::fmt::Debug,
{
    let mut bytes = vec![];
    let n = x.pack(&mut bytes);
    assert_eq!(n, bytes.len());
    let (o, y) = T::unpack(&bytes).unwrap();
    let (p, z) = T::unpack_iter(&mut bytes.into_iter().peekable()).unwrap();
    assert_eq!(n, o);
    assert_eq!(n, p);
    assert_eq!(x, y);
    assert_eq!(x, z);
}

#[test]
fn unsigned_integers_come_back() {
    for x in [0u8, 1, 127, 128, 255] {
        case(x);
    }
    for x in [0u16, 127, 128, 255, 256, 65535] {
        case(x);
    }
    for x in [0u32, 127, 128, 255, 256, 65535, 65536, u32::MAX] {
        case(x);
    }
    for x in [0u64, 127, 128, 255, 256, 65535, 65536, 0xffff_ffff, 0x1_0000_0000, u64::MAX] {
        case(x);
        case(x as usize);
    }
}

#[test]
fn signed_integers_come_back() {
    for x in [i8::MIN, -33, -32, -1, 0, 1, 127] {
        case(x);
    }
    for x in [i16::MIN, -129, -128, -33, -32, -1, 0, 127, 128, 255, 256, i16::MAX] {
        case(x);
    }
    for x in [i32::MIN, -32769, -32768, -129, -128, -33, -32, 0, 127, 128, 32767, 32768, i32::MAX]
    {
        case(x);
    }
    for x in [
        i64::MIN,
        i32::MIN as i64 - 1,
        i32::MIN as i64,
        -32769,
        -32768,
        -129,
        -128,
        -33,
        -32,
        -1,
        0,
        127,
        128,
        32767,
        32768,
        i32::MAX as i64,
        i32::MAX as i64 + 1,
        i64::MAX,
    ] {
        case(x);
        case(x as isize);
    }
}

#[test]
fn unsigned_integers_take_the_narrowest_form() {
    assert_eq!(pack_to_vec(&0u64), vec![0x00]);
    assert_eq!(pack_to_vec(&127u64), vec![0x7f]);
    assert_eq!(pack_to_vec(&128u64), vec![0xcc, 0x80]);
    assert_eq!(pack_to_vec(&255u8), vec![0xcc, 0xff]);
    assert_eq!(pack_to_vec(&256u64), vec![0xcd, 0x01, 0x00]);
    assert_eq!(pack_to_vec(&0xabcdu16), vec![0xcd, 0xab, 0xcd]);
    assert_eq!(pack_to_vec(&65536u32), vec![0xce, 0x00, 0x01, 0x00, 0x00]);
    assert_eq!(pack_to_vec(&0x1234_5678u32), vec![0xce, 0x12, 0x34, 0x56, 0x78]);
    assert_eq!(pack_to_vec(&0x1_0000_0000u64), vec![0xcf, 0, 0, 0, 1, 0, 0, 0, 0]);
    assert_eq!(
        pack_to_vec(&0x0102_0304_0506_0708u64),
        vec![0xcf, 1, 2, 3, 4, 5, 6, 7, 8]
    );
    assert_eq!(pack_to_vec(&u64::MAX), vec![0xcf, 255, 255, 255, 255, 255, 255, 255, 255]);
    assert_eq!(pack_to_vec(&300usize), vec![0xcd, 0x01, 0x2c]);
}

#[test]
fn signed_integers_take_the_narrowest_signed_form() {
    assert_eq!(pack_to_vec(&0i64), vec![0x00]);
    assert_eq!(pack_to_vec(&127i8), vec![0x7f]);
    assert_eq!(pack_to_vec(&-1i8), vec![0xff]);
    assert_eq!(pack_to_vec(&-32i16), vec![0xe0]);
    assert_eq!(pack_to_vec(&-33i32), vec![0xd0, 0xdf]);
    assert_eq!(pack_to_vec(&-128i64), vec![0xd0, 0x80]);
    assert_eq!(pack_to_vec(&-129i64), vec![0xd1, 0xff, 0x7f]);
    assert_eq!(pack_to_vec(&128i16), vec![0xd1, 0x00, 0x80]);
    assert_eq!(pack_to_vec(&i16::MIN), vec![0xd1, 0x80, 0x00]);
    assert_eq!(pack_to_vec(&32768i32), vec![0xd2, 0x00, 0x00, 0x80, 0x00]);
    assert_eq!(pack_to_vec(&-32769i32), vec![0xd2, 0xff, 0xff, 0x7f, 0xff]);
    assert_eq!(pack_to_vec(&i32::MIN), vec![0xd2, 0x80, 0x00, 0x00, 0x00]);
    assert_eq!(
        pack_to_vec(&(i32::MIN as i64 - 1)),
        vec![0xd3, 0xff, 0xff, 0xff, 0xff, 0x7f, 0xff, 0xff, 0xff]
    );
    assert_eq!(pack_to_vec(&i64::MAX), vec![0xd3, 0x7f, 255, 255, 255, 255, 255, 255, 255]);
    assert_eq!(pack_to_vec(&-2isize), vec![0xfe]);
}

#[test]
fn count_is_the_number_of_bytes_for_every_width() {
    let mut bytes = vec![9u8];
    assert_eq!(200i16.pack(&mut bytes), 3);
    assert_eq!(bytes.len(), 4);
    assert_eq!(40000i32.pack(&mut bytes), 5);
    assert_eq!(bytes.len(), 9);
    assert_eq!((-200i32).pack(&mut bytes), 3);
    assert_eq!(bytes.len(), 12);
    assert_eq!(bytes[0], 9);
}

#[test]
fn decoders_take_forms_wider_than_needed() {
    assert_eq!(u16::unpack(&[0xcc, 0x05]).unwrap(), (2, 5));
    assert_eq!(u32::unpack(&[0xcd, 0x00, 0x05]).unwrap(), (3, 5));
    assert_eq!(u64::unpack(&[0xce, 0, 0, 0, 5]).unwrap(), (5, 5));
    assert_eq!(u64::unpack(&[0xcf, 0, 0, 0, 0, 0, 0, 0, 5]).unwrap(), (9, 5));
    assert_eq!(i64::unpack(&[0xd0, 0x05]).unwrap(), (2, 5));
    assert_eq!(i64::unpack(&[0xd1, 0xff, 0xff]).unwrap(), (3, -1));
    assert_eq!(i64::unpack(&[0xd2, 0xff, 0xff, 0xff, 0xfe]).unwrap(), (5, -2));
    assert_eq!(i64::unpack(&[0xd3, 255, 255, 255, 255, 255, 255, 255, 253]).unwrap(), (9, -3));
    assert_eq!(i16::unpack(&[0xe0]).unwrap(), (1, -32));
    // The iterator decoders count the same bytes.
    let mut it = vec![0xceu8, 0, 0, 0, 5, 0xce, 0, 0, 1, 0].into_iter().peekable();
    assert_eq!(u64::unpack_iter(&mut it).unwrap(), (5, 5));
    assert_eq!(usize::unpack_iter(&mut it).unwrap(), (5, 256));
}

#[test]
fn decoders_refuse_forms_of_another_family_or_too_wide() {
    assert_eq!(u8::unpack(&[0xcd, 0, 1]).unwrap_err(), Error::UnexpectedFormatTag);
    assert_eq!(u16::unpack(&[0xce, 0, 0, 0, 1]).unwrap_err(), Error::UnexpectedFormatTag);
    assert_eq!(u32::unpack(&[0xcf, 0, 0, 0, 0, 0, 0, 0, 1]).unwrap_err(), Error::UnexpectedFormatTag);
    assert_eq!(u64::unpack(&[0xd0, 1]).unwrap_err(), Error::UnexpectedFormatTag);
    assert_eq!(u64::unpack(&[0xff]).unwrap_err(), Error::UnexpectedFormatTag);
    assert_eq!(i8::unpack(&[0xd1, 0, 1]).unwrap_err(), Error::UnexpectedFormatTag);
    assert_eq!(i64::unpack(&[0xcc, 1]).unwrap_err(), Error::UnexpectedFormatTag);
    assert_eq!(i64::unpack(&[0xc0]).unwrap_err(), Error::UnexpectedFormatTag);
    assert_eq!(u64::unpack(&[]).unwrap_err(), Error::BufferTooShort);
    assert_eq!(u64::unpack(&[0xcf, 0, 0]).unwrap_err(), Error::BufferTooShort);
    assert_eq!(
        i32::unpack_iter(&mut vec![0xd2u8, 0, 0, 0].into_iter().peekable()).unwrap_err(),
        Error::BufferTooShort
    );
}
