use msgpacker::{pack_to_vec, Error, Packable, Unpackable};

fn case<T>(x: T)
where
    T: Packable + Unpackable + PartialEq + core::fmt::Debug,
{
    let mut bytes = vec![];
    let n = x.pack(&mut bytes);
    assert_eq!(n, bytes.len());
    let (o, y) = T::unpack(&bytes).unwrap();
    let (p, z) = T::unpack_iter(&mut bytes.into_iter().peekable()).unwrap();
    assert_eq!(n, o);
    assert_eq!(n, p);
    assert_eq!(x, y);
    assert_eq!(x, z);
}

#[test]
fn nil() {
    case(());
}

#[test]
fn bool() {
    case(true);
    case(false);
}

#[test]
fn booleans_are_one_byte() {
    assert_eq!(pack_to_vec(&true), vec![0xc3]);
    assert_eq!(pack_to_vec(&false), vec![0xc2]);
    assert_eq!(<bool as Unpackable>::unpack(&[0xc0]).unwrap_err(), Error::UnexpectedFormatTag);
    assert_eq!(<bool as Unpackable>::unpack(&[]).unwrap_err(), Error::BufferTooShort);
}

#[test]
fn option_is_nil_or_the_value() {
    case(Some(7u8));
    case(None::<u8>);
    case(Some(-40i32));
    case(Some("text".to_string()));
    case(None::<String>);
    assert_eq!(pack_to_vec(&None::<u32>), vec![0xc0]);
    assert_eq!(pack_to_vec(&Some(5u32)), vec![0x05]);
    assert_eq!(<Option<u8>>::unpack(&[]).unwrap_err(), Error::BufferTooShort);
    assert_eq!(
        <Option<u8>>::unpack_iter(&mut Vec::<u8>::new().into_iter().peekable()).unwrap_err(),
        Error::BufferTooShort
    );
}

#[test]
fn option_reads_on_after_a_look_at_the_first_byte() {
    // The byte that was looked at is not lost: the value is read from it.
    let mut it = vec![0xcdu8, 0x01, 0x02, 0xc0, 0x2a].into_iter().peekable();
    assert_eq!(<Option<u16>>::unpack_iter(&mut it).unwrap(), (3, Some(0x0102)));
    assert_eq!(<Option<u16>>::unpack_iter(&mut it).unwrap(), (1, None));
    assert_eq!(<Option<u16>>::unpack_iter(&mut it).unwrap(), (1, Some(0x2a)));
    assert_eq!(<Option<u16>>::unpack_iter(&mut it).unwrap_err(), Error::BufferTooShort);
}

#[test]
fn tuples_are_their_fields_in_a_row() {
    case((1u8,));
    case((1u8, true));
    case((-1i32, "abc".to_string(), false));
    case((i32::MIN, "x".to_string(), true, usize::MAX));
    case((1u8, 2u16, 3u32, 4u64, 5i8));
    case((1u8, 2u16, 3u32, 4u64, -5i8, Some("six".to_string())));
    let t = (300u16, "hi".to_string(), true);
    let mut expected = pack_to_vec(&300u16);
    expected.extend(pack_to_vec(&"hi".to_string()));
    expected.extend(pack_to_vec(&true));
    assert_eq!(pack_to_vec(&t), expected);
    assert_eq!(pack_to_vec(&t), vec![0xcd, 0x01, 0x2c, 0xa2, b'h', b'i', 0xc3]);
}

#[test]
fn tuple_fails_with_the_first_failing_field() {
    assert_eq!(<(u8, bool)>::unpack(&[0x01]).unwrap_err(), Error::BufferTooShort);
    assert_eq!(<(u8, bool)>::unpack(&[0x01, 0x02]).unwrap_err(), Error::UnexpectedFormatTag);
    assert_eq!(<(u8, bool)>::unpack(&[0xc3, 0xc3]).unwrap_err(), Error::UnexpectedFormatTag);
}

#[test]
fn fixed_arrays_are_arrays_of_their_length() {
    case([1i32, -2, 300, i32::MIN]);
    case([0u8; 0]);
    case([7u64; 17]);
    assert_eq!(pack_to_vec(&[1u8, 2, 3]), vec![0x93, 0x01, 0x02, 0x03]);
    let long = pack_to_vec(&[0u8; 16]);
    assert_eq!(&long[..3], &[0xdc, 0x00, 0x10]);
    assert_eq!(long.len(), 19);
}

#[test]
fn fixed_array_refuses_another_length() {
    assert_eq!(<[u8; 2]>::unpack(&[0x93, 1, 2, 3]).unwrap_err(), Error::UnexpectedArrayLength);
    assert_eq!(<[u8; 4]>::unpack(&[0x93, 1, 2, 3]).unwrap_err(), Error::UnexpectedArrayLength);
    assert_eq!(
        <[u8; 2]>::unpack_iter(&mut vec![0x91u8, 1].into_iter().peekable()).unwrap_err(),
        Error::UnexpectedArrayLength
    );
    assert_eq!(<[u8; 3]>::unpack(&[0x93, 1, 2]).unwrap_err(), Error::BufferTooShort);
    assert_eq!(<[u8; 3]>::unpack(&[0x83, 1, 2, 3]).unwrap_err(), Error::UnexpectedFormatTag);
    assert_eq!(<[u8; 3]>::unpack(&[0x93, 1, 2, 3, 9]).unwrap(), (4, [1, 2, 3]));
}

#[test]
fn characters_are_their_codes() {
    case('a');
    case('\u{0}');
    case('é');
    case('\u{10FFFF}');
    assert_eq!(pack_to_vec(&'a'), vec![0x61]);
    assert_eq!(pack_to_vec(&'é'), vec![0xcc, 0xe9]);
    assert_eq!(pack_to_vec(&'\u{1F600}'), vec![0xce, 0x00, 0x01, 0xf6, 0x00]);
    // A surrogate is the code of no character, and this one is not 0xd800 read as a character.
    assert_eq!(<char>::unpack(&[0xcd, 0xd8, 0x00]).unwrap_err(), Error::InvalidUtf8);
    assert_eq!(<char>::unpack(&[0xce, 0x00, 0x11, 0x00, 0x00]).unwrap_err(), Error::InvalidUtf8);
    assert_eq!(<char>::unpack(&[0xcd, 0x20, 0xac]).unwrap(), (3, '€'));
}
