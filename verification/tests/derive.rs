use msgpacker::derive::{
    contains_attribute, field_codec, impl_fields_enum, impl_fields_named, impl_fields_unit,
    impl_fields_unnamed, msg_packer, pack_discriminant, unpack_discriminant,
    Attribute, FieldCodec, FieldDecl, Plan, TypeDecl, VariantDecl,
};
use msgpacker::helpers::same_text;
use msgpacker::{pack_to_vec, Error, Packable, Unpackable};

fn field(ty: &str, args: &[&str], marks: &[&str]) -> FieldDecl {
    let attrs = if marks.is_empty() {
        vec![]
    } else {
        vec![Attribute {
            is_list: true,
            is_msgpacker: true,
            tokens: marks.iter().map(|m| m.to_string()).collect(),
        }]
    };
    FieldDecl {
        attrs,
        ty: ty.to_string(),
        ty_args: args.iter().map(|a| a.to_string()).collect(),
    }
}

#[test]
fn byte_vector_is_plain_and_other_vectors_are_arrays() {
    assert_eq!(field_codec(&field("Vec", &["u8"], &[])), FieldCodec::Plain);
    assert_eq!(field_codec(&field("Vec", &["String"], &[])), FieldCodec::Array);
    assert_eq!(field_codec(&field("Vec", &["u16"], &[])), FieldCodec::Array);
    assert_eq!(field_codec(&field("Vec", &[], &[])), FieldCodec::Array);
    assert_eq!(field_codec(&field("Vec", &["u8", "u8"], &[])), FieldCodec::Array);
    assert_eq!(field_codec(&field("u64", &[], &[])), FieldCodec::Plain);
    assert_eq!(field_codec(&field("", &[], &[])), FieldCodec::Plain);
    assert_eq!(field_codec(&field("HashMap", &["K", "V"], &["map"])), FieldCodec::Mapping);
    assert_eq!(field_codec(&field("Vec", &["u8"], &["array"])), FieldCodec::Array);
    assert_eq!(field_codec(&field("Vec", &["u8"], &["map"])), FieldCodec::Mapping);
    assert_eq!(field_codec(&field("Vec", &["u8"], &["array", ",", "map"])), FieldCodec::Mapping);
    assert_eq!(field_codec(&field("BTreeSet", &["u8"], &["other"])), FieldCodec::Plain);
}

#[test]
fn only_the_first_attribute_counts() {
    let mut f = field("u8", &[], &["map"]);
    assert!(contains_attribute(&f, "map"));
    assert!(!contains_attribute(&f, "array"));
    assert!(!contains_attribute(&f, "ma"));
    f.attrs.insert(0, Attribute { is_list: true, is_msgpacker: false, tokens: vec![] });
    assert!(!contains_attribute(&f, "map"));
    f.attrs[0] = Attribute { is_list: false, is_msgpacker: true, tokens: vec!["map".into()] };
    assert!(!contains_attribute(&f, "map"));
    assert!(same_text("Vec", "Vec"));
    assert!(!same_text("Vec", "vec"));
    assert!(!same_text("Vec", "Vecs"));
    assert!(same_text("", ""));
}

#[test]
fn plans() {
    let named = vec![
        field("Vec", &["u8"], &[]),
        field("Vec", &["String"], &[]),
        field("HashMap", &[], &["map"]),
        field("u8", &[], &[]),
    ];
    assert_eq!(
        impl_fields_named(&named),
        vec![FieldCodec::Plain, FieldCodec::Array, FieldCodec::Mapping, FieldCodec::Plain]
    );
    let unnamed = vec![field("Vec", &["String"], &[]), field("u8", &[], &[])];
    assert_eq!(
        impl_fields_unnamed(&unnamed).ok().unwrap(),
        vec![FieldCodec::Plain, FieldCodec::Plain]
    );
    let marked = vec![field("u8", &[], &[]), field("Vec", &["u8"], &["array"])];
    assert_eq!(impl_fields_unnamed(&marked).err().unwrap(), Error::NotImplemented);
    assert!(matches!(impl_fields_unit(), Plan::Unit));
    assert!(matches!(msg_packer(&TypeDecl::Unit), Ok(Plan::Unit)));
    assert!(matches!(msg_packer(&TypeDecl::Union), Err(Error::NotImplemented)));
    assert!(matches!(msg_packer(&TypeDecl::Enum(vec![])), Err(Error::NotImplemented)));
    match msg_packer(&TypeDecl::Named(named)) {
        Ok(Plan::Record(codecs)) => assert_eq!(codecs.len(), 4),
        _ => panic!("a record has a plan"),
    }
    assert!(matches!(msg_packer(&TypeDecl::Unnamed(marked)), Err(Error::NotImplemented)));
}

#[test]
fn discriminants_default_to_the_position() {
    let variants = vec![
        VariantDecl { discriminant: None, fields: vec![] },
        VariantDecl { discriminant: Some(7), fields: vec![field("u32", &[], &[])] },
        VariantDecl { discriminant: None, fields: vec![field("u8", &[], &[]), field("u8", &[], &[])] },
    ];
    let plan = impl_fields_enum(&variants).ok().unwrap();
    assert_eq!(plan.len(), 3);
    assert_eq!(plan[0].discriminant, 0);
    assert_eq!(plan[1].discriminant, 7);
    assert_eq!(plan[2].discriminant, 2);
    assert_eq!(plan[0].fields, 0);
    assert_eq!(plan[1].fields, 1);
    assert_eq!(plan[2].fields, 2);
    assert_eq!(impl_fields_enum(&vec![]).err().unwrap(), Error::NotImplemented);
}

// A tagged union written the way the plan says:
// enum Foo { Bar, Baz(u32, String), Qux { a: Vec<u8>, b: u64 } }
#[derive(Debug, PartialEq)]
enum Foo {
    Bar,
    Baz(u32, String),
    Qux { a: Vec<u8>, b: u64 },
}

const DECLARED: [u32; 3] = [0, 1, 2];

fn pack_foo(foo: &Foo, buf: &mut Vec<u8>) -> usize {
    match foo {
        Foo::Bar => pack_discriminant(buf, DECLARED[0]),
        Foo::Baz(t0, t1) => pack_discriminant(buf, DECLARED[1]) + t0.pack(buf) + t1.pack(buf),
        Foo::Qux { a, b } => pack_discriminant(buf, DECLARED[2]) + a.pack(buf) + b.pack(buf),
    }
}

fn unpack_foo(buf: &[u8]) -> Result<(usize, Foo), Error> {
    let (n, variant) = unpack_discriminant(buf, &DECLARED)?;
    let rest = &buf[n..];
    match variant {
        0 => Ok((n, Foo::Bar)),
        1 => {
            let (m, (t0, t1)) = <(u32, String)>::unpack(rest)?;
            Ok((n + m, Foo::Baz(t0, t1)))
        }
        _ => {
            let (m, (a, b)) = <(Vec<u8>, u64)>::unpack(rest)?;
            Ok((n + m, Foo::Qux { a, b }))
        }
    }
}

#[test]
fn union_is_discriminant_then_fields() {
    let mut bytes = Vec::new();
    assert_eq!(pack_foo(&Foo::Bar, &mut bytes), 1);
    assert_eq!(bytes, vec![0x00]);

    let baz = Foo::Baz(300, "xy".to_string());
    let mut bytes = Vec::new();
    let n = pack_foo(&baz, &mut bytes);
    let mut expected = pack_to_vec(&1u32);
    expected.extend(pack_to_vec(&300u32));
    expected.extend(pack_to_vec(&"xy".to_string()));
    assert_eq!(bytes, expected);
    assert_eq!(bytes, vec![0x01, 0xcd, 0x01, 0x2c, 0xa2, b'x', b'y']);
    assert_eq!(n, bytes.len());
    assert_eq!(unpack_foo(&bytes).unwrap(), (n, baz));

    let qux = Foo::Qux { a: vec![1, 2, 3], b: u64::MAX };
    let mut bytes = Vec::new();
    let n = pack_foo(&qux, &mut bytes);
    assert_eq!(&bytes[..6], &[0x02, 0xc4, 0x03, 1, 2, 3]);
    assert_eq!(unpack_foo(&bytes).unwrap(), (n, qux));
}

#[test]
fn unknown_discriminant_is_an_invalid_variant() {
    assert_eq!(unpack_foo(&[0x03]).unwrap_err(), Error::InvalidEnumVariant);
    assert_eq!(unpack_foo(&[0xce, 0xff, 0xff, 0xff, 0xff]).unwrap_err(), Error::InvalidEnumVariant);
    assert_eq!(unpack_foo(&[]).unwrap_err(), Error::BufferTooShort);
    assert_eq!(unpack_foo(&[0xc0]).unwrap_err(), Error::UnexpectedFormatTag);
    assert_eq!(unpack_discriminant(&[0x07], &[5, 7, 7]).unwrap(), (1, 1));
    assert_eq!(unpack_discriminant(&[0xcd, 0x01, 0x00], &[1, 256]).unwrap(), (3, 1));
    assert_eq!(unpack_discriminant(&[0x07], &[]).unwrap_err(), Error::InvalidEnumVariant);
}
