use vstd::prelude::*;
use crate::error::Error;
use crate::pack::binary::{lemma_wire_bin_len, wire_bin};
use crate::pack::collections::{lemma_collection_header_len, wire_array};
use crate::pack::integer::{lemma_wire_uint_len, pack_uint, wire_uint};
use crate::unpack::integer::{lemma_uint_round_trip, parse_uint, unpack_uint};
use crate::helpers::{lemma_pow256_values, same_text};
use crate::Packable;

verus! {

/// What the derivation reads of an attribute on a field.
pub struct Attribute {
    /// The attribute has the form of a list: a path and tokens in brackets.
    pub is_list: bool,
    /// The path of the list is `msgpacker`.
    pub is_msgpacker: bool,
    /// The tokens in the brackets, each as it is written.
    pub tokens: Vec<String>,
}

/// What the derivation reads of a field.
pub struct FieldDecl {
    /// The attributes on the field, in their order.
    pub attrs: Vec<Attribute>,
    /// The last word of the path of the field's type; empty where the type is no path.
    pub ty: String,
    /// The last word of each type in the angle brackets behind it; empty
    /// for one that is no path.
    pub ty_args: Vec<String>,
}

/// What the derivation reads of a variant of a tagged union.
pub struct VariantDecl {
    /// The discriminant written for the variant, if one is.
    pub discriminant: Option<u32>,
    /// The fields of the variant, in their order.
    pub fields: Vec<FieldDecl>,
}

/// What the derivation reads of a type declaration.
pub enum TypeDecl {
    /// A record whose fields have names.
    Named(Vec<FieldDecl>),
    /// A record whose fields have positions.
    Unnamed(Vec<FieldDecl>),
    /// A record without fields.
    Unit,
    /// A tagged union.
    Enum(Vec<VariantDecl>),
    /// An untagged union.
    Union,
}

/// The codec that the derived code uses for a field.
#[derive(Debug, Clone, Copy, PartialEq, Eq, Hash, Structural)]
pub enum FieldCodec {
    /// The codec of the field's own type.
    Plain,
    /// The array helpers: a header with the number of elements, then the elements.
    Array,
    /// The map helpers: a header with the number of entries, then each key
    /// before its value.
    Mapping,
}

/// What the derived code does for a variant: it writes the discriminant on
/// 32 bits and then the fields, each with the codec of its own type.
pub struct VariantPlan {
    pub discriminant: u32,
    pub fields: usize,
}

/// What the derived code does for a type.
pub enum Plan {
    /// Nothing is written and nothing read.
    Unit,
    /// The fields are written one after the other, each with its codec.
    Record(Vec<FieldCodec>),
    /// The discriminant of the variant is written, then its fields.
    Union(Vec<VariantPlan>),
}

/// Whether one of the tokens is `name`.
pub open spec fn has_token(tokens: Seq<String>, name: Seq<char>) -> bool {
    exists|i: int| 0 <= i < tokens.len() && (#[trigger] tokens[i])@ == name
}

/// Whether the field is marked with `name`: its first attribute is a list
/// under `msgpacker` and one of the tokens in it is `name`.
pub open spec fn marked(field: FieldDecl, name: Seq<char>) -> bool {
    field.attrs@.len() > 0 && field.attrs@[0].is_list && field.attrs@[0].is_msgpacker
        && has_token(field.attrs@[0].tokens@, name)
}

/// Whether the field is marked with `name`.
pub fn contains_attribute(field: &FieldDecl, name: &str) -> (r: bool)
    ensures
        r == marked(*field, name@),
{
    if field.attrs.len() == 0 {
        return false;
    }
    let attr = &field.attrs[0];
    if !attr.is_list || !attr.is_msgpacker {
        return false;
    }
    let mut i: usize = 0;
    while i < attr.tokens.len()
        invariant
            i <= attr.tokens@.len(),
            field.attrs@.len() > 0,
            *attr == field.attrs@[0],
            attr.is_list,
            attr.is_msgpacker,
            forall|j: int| 0 <= j < i ==> (#[trigger] attr.tokens@[j])@ != name@,
        decreases attr.tokens.len() - i,
    {
        if same_text(attr.tokens[i].as_str(), name) {
            assert(attr.tokens@[i as int]@ == name@);
            return true;
        }
        i = i + 1;
    }
    false
}

/// Whether the field's type is a vector of anything.
pub open spec fn is_vec(field: FieldDecl) -> bool {
    field.ty@ == "Vec"@
}

/// Whether the field's type is a vector of bytes.
pub open spec fn is_vec_u8(field: FieldDecl) -> bool {
    is_vec(field) && field.ty_args@.len() == 1 && field.ty_args@[0]@ == "u8"@
}

/// The codec of a named field: the map helpers where it is marked `map`; the
/// array helpers where it is marked `array` or is a vector of anything but
/// bytes; else the codec of its own type, which for a vector of bytes is the
/// binary one.
pub open spec fn named_codec(field: FieldDecl) -> FieldCodec {
    if marked(field, "map"@) {
        FieldCodec::Mapping
    } else if marked(field, "array"@) || is_vec(field) && !is_vec_u8(field) {
        FieldCodec::Array
    } else {
        FieldCodec::Plain
    }
}

/// The codec of a named field.
pub fn field_codec(field: &FieldDecl) -> (c: FieldCodec)
    ensures
        c == named_codec(*field),
{
    let vec = same_text(field.ty.as_str(), "Vec");
    let vec_u8 = vec && field.ty_args.len() == 1 && same_text(field.ty_args[0].as_str(), "u8");
    if contains_attribute(field, "map") {
        FieldCodec::Mapping
    } else if contains_attribute(field, "array") || vec && !vec_u8 {
        FieldCodec::Array
    } else {
        FieldCodec::Plain
    }
}

/// The plan for a record with named fields: for each field its codec, in the
/// order the fields are declared in.
pub fn impl_fields_named(fields: &Vec<FieldDecl>) -> (plan: Vec<FieldCodec>)
    ensures
        plan@.len() == fields@.len(),
        forall|i: int| 0 <= i < fields@.len() ==> plan@[i] == named_codec(#[trigger] fields@[i]),
{
    let mut plan: Vec<FieldCodec> = Vec::new();
    let mut i: usize = 0;
    while i < fields.len()
        invariant
            i <= fields@.len(),
            plan@.len() == i,
            forall|j: int| 0 <= j < i ==> plan@[j] == named_codec(#[trigger] fields@[j]),
        decreases fields.len() - i,
    {
        plan.push(field_codec(&fields[i]));
        i = i + 1;
    }
    plan
}

/// Whether a field without a name asks for helpers that positions do not have.
pub open spec fn asks_for_helper(field: FieldDecl) -> bool {
    marked(field, "map"@) || marked(field, "array"@)
}

/// The plan for a record with unnamed fields: the codec of its own type for
/// each field, in the order of the positions. A field marked `map` or `array`
/// has no plan.
pub fn impl_fields_unnamed(fields: &Vec<FieldDecl>) -> (r: Result<Vec<FieldCodec>, Error>)
    ensures
        match r {
            Ok(plan) => plan@.len() == fields@.len() && (forall|i: int|
                0 <= i < fields@.len() ==> #[trigger] plan@[i] == FieldCodec::Plain) && (forall|
                i: int,
            | 0 <= i < fields@.len() ==> !asks_for_helper(#[trigger] fields@[i])),
            Err(e) => e == Error::NotImplemented && exists|i: int|
                0 <= i < fields@.len() && asks_for_helper(#[trigger] fields@[i]),
        },
{
    let mut plan: Vec<FieldCodec> = Vec::new();
    let mut i: usize = 0;
    while i < fields.len()
        invariant
            i <= fields@.len(),
            plan@.len() == i,
            forall|j: int| 0 <= j < i ==> #[trigger] plan@[j] == FieldCodec::Plain,
            forall|j: int| 0 <= j < i ==> !asks_for_helper(#[trigger] fields@[j]),
        decreases fields.len() - i,
    {
        let map = contains_attribute(&fields[i], "map");
        let array = contains_attribute(&fields[i], "array");
        if map || array {
            assert(asks_for_helper(fields@[i as int]));
            return Err(Error::NotImplemented);
        }
        assert(!asks_for_helper(fields@[i as int]));
        plan.push(FieldCodec::Plain);
        i = i + 1;
    }
    Ok(plan)
}

/// The plan for a record without fields.
pub fn impl_fields_unit() -> (plan: Plan)
    ensures
        plan is Unit,
{
    Plan::Unit
}

/// The discriminant of the variant at position `index`: the one written for
/// it, or its position where none is written.
pub open spec fn discriminant_of(variant: VariantDecl, index: int) -> u32 {
    match variant.discriminant {
        Some(d) => d,
        None => index as u32,
    }
}

/// The plan for a tagged union: for each variant its discriminant and the
/// number of its fields. A union without variants has no plan, nor has one
/// with more variants than 32 bits can count.
pub fn impl_fields_enum(variants: &Vec<VariantDecl>) -> (r: Result<Vec<VariantPlan>, Error>)
    ensures
        match r {
            Ok(plan) => 0 < variants@.len() <= 0xffff_ffff && plan@.len() == variants@.len()
                && (forall|i: int|
                0 <= i < variants@.len() ==> (#[trigger] plan@[i]).discriminant == discriminant_of(
                    variants@[i],
                    i,
                ) && plan@[i].fields == variants@[i].fields@.len()),
            Err(e) => e == Error::NotImplemented && (variants@.len() == 0 || variants@.len()
                > 0xffff_ffff),
        },
{
    if variants.len() == 0 || variants.len() > 0xffff_ffff {
        return Err(Error::NotImplemented);
    }
    let mut plan: Vec<VariantPlan> = Vec::new();
    let mut i: usize = 0;
    while i < variants.len()
        invariant
            i <= variants@.len() <= 0xffff_ffff,
            plan@.len() == i,
            forall|j: int|
                0 <= j < i ==> (#[trigger] plan@[j]).discriminant == discriminant_of(
                    variants@[j],
                    j,
                ) && plan@[j].fields == variants@[j].fields@.len(),
        decreases variants.len() - i,
    {
        let discriminant = match variants[i].discriminant {
            Some(d) => d,
            None => i as u32,
        };
        plan.push(VariantPlan { discriminant, fields: variants[i].fields.len() });
        i = i + 1;
    }
    Ok(plan)
}

/// The plan for a type declaration. An untagged union has none.
pub fn msg_packer(input: &TypeDecl) -> (r: Result<Plan, Error>)
    ensures
        input is Unit ==> (r matches Ok(plan) && plan is Unit),
        input is Union ==> r == Err::<Plan, Error>(Error::NotImplemented),
        input matches TypeDecl::Named(fields) ==> (r matches Ok(Plan::Record(plan)) && plan@.len()
            == fields@.len() && (forall|i: int|
            0 <= i < fields@.len() ==> plan@[i] == named_codec(#[trigger] fields@[i]))),
        input matches TypeDecl::Unnamed(fields) ==> match r {
            Ok(plan) => plan matches Plan::Record(codecs) && codecs@.len() == fields@.len()
                && (forall|i: int|
                0 <= i < fields@.len() ==> #[trigger] codecs@[i] == FieldCodec::Plain) && (forall|
                i: int,
            | 0 <= i < fields@.len() ==> !asks_for_helper(#[trigger] fields@[i])),
            Err(e) => e == Error::NotImplemented && exists|i: int|
                0 <= i < fields@.len() && asks_for_helper(#[trigger] fields@[i]),
        },
        input matches TypeDecl::Enum(variants) ==> match r {
            Ok(plan) => plan matches Plan::Union(vs) && vs@.len() == variants@.len() > 0
                && (forall|i: int|
                0 <= i < variants@.len() ==> (#[trigger] vs@[i]).discriminant == discriminant_of(
                    variants@[i],
                    i,
                ) && vs@[i].fields == variants@[i].fields@.len()),
            Err(e) => e == Error::NotImplemented && (variants@.len() == 0 || variants@.len()
                > 0xffff_ffff),
        },
{
    match input {
        TypeDecl::Named(fields) => Ok(Plan::Record(impl_fields_named(fields))),
        TypeDecl::Unnamed(fields) => match impl_fields_unnamed(fields) {
            Ok(plan) => Ok(Plan::Record(plan)),
            Err(e) => Err(e),
        },
        TypeDecl::Unit => Ok(impl_fields_unit()),
        TypeDecl::Enum(variants) => match impl_fields_enum(variants) {
            Ok(plan) => Ok(Plan::Union(plan)),
            Err(e) => Err(e),
        },
        TypeDecl::Union => Err(Error::NotImplemented),
    }
}

/// The bytes of a record: those of its fields, one after the other.
pub open spec fn wire_record(fields: Seq<Seq<u8>>) -> Seq<u8>
    decreases fields.len(),
{
    if fields.len() == 0 {
        Seq::empty()
    } else {
        fields[0] + wire_record(fields.drop_first())
    }
}

/// The bytes of a variant of a tagged union: the discriminant as an unsigned
/// integer of 32 bits, then the bytes of the fields.
pub open spec fn wire_variant(discriminant: u32, fields: Seq<Seq<u8>>) -> Seq<u8> {
    wire_uint(discriminant as nat) + wire_record(fields)
}

/// A record is written as the tuple of its fields: the bytes of the first
/// field, then those of the second, and so on.
pub proof fn lemma_record_is_tuple<A: Packable, B: Packable, C: Packable, D: Packable>(
    a: A::V,
    b: B::V,
    c: C::V,
    d: D::V,
)
    ensures
        <(A, ) as Packable>::wire((a, )) == wire_record(seq![A::wire(a)]),
        <(A, B) as Packable>::wire((a, b)) == wire_record(seq![A::wire(a), B::wire(b)]),
        <(A, B, C) as Packable>::wire((a, b, c)) == wire_record(
            seq![A::wire(a), B::wire(b), C::wire(c)],
        ),
        <(A, B, C, D) as Packable>::wire((a, b, c, d)) == wire_record(
            seq![A::wire(a), B::wire(b), C::wire(c), D::wire(d)],
        ),
{
    let one = seq![A::wire(a)];
    let two = seq![A::wire(a), B::wire(b)];
    let three = seq![A::wire(a), B::wire(b), C::wire(c)];
    let four = seq![A::wire(a), B::wire(b), C::wire(c), D::wire(d)];
    let none = Seq::<Seq<u8>>::empty();
    assert(one.drop_first() =~= none);
    assert(two.drop_first() =~= seq![B::wire(b)]);
    assert(seq![B::wire(b)].drop_first() =~= none);
    assert(three.drop_first() =~= seq![B::wire(b), C::wire(c)]);
    assert(seq![B::wire(b), C::wire(c)].drop_first() =~= seq![C::wire(c)]);
    assert(seq![C::wire(c)].drop_first() =~= none);
    assert(four.drop_first() =~= seq![B::wire(b), C::wire(c), D::wire(d)]);
    assert(seq![B::wire(b), C::wire(c), D::wire(d)].drop_first() =~= seq![C::wire(c), D::wire(d)]);
    assert(seq![C::wire(c), D::wire(d)].drop_first() =~= seq![D::wire(d)]);
    assert(seq![D::wire(d)].drop_first() =~= none);
    assert(wire_record(none) =~= Seq::<u8>::empty());
    assert(wire_record(seq![D::wire(d)]) =~= D::wire(d));
    assert(wire_record(seq![C::wire(c)]) =~= C::wire(c));
    assert(wire_record(seq![B::wire(b)]) =~= B::wire(b));
    assert(wire_record(one) =~= A::wire(a));
    assert(wire_record(seq![C::wire(c), D::wire(d)]) =~= C::wire(c) + D::wire(d));
    assert(wire_record(seq![B::wire(b), C::wire(c)]) =~= B::wire(b) + C::wire(c));
    assert(wire_record(seq![B::wire(b), C::wire(c), D::wire(d)]) =~= B::wire(b) + C::wire(c)
        + D::wire(d));
    assert(wire_record(two) =~= A::wire(a) + B::wire(b));
    assert(wire_record(three) =~= A::wire(a) + B::wire(b) + C::wire(c));
    assert(wire_record(four) =~= A::wire(a) + B::wire(b) + C::wire(c) + D::wire(d));
}

/// Writes the discriminant of a variant and says how many bytes it took.
pub fn pack_discriminant(buf: &mut Vec<u8>, discriminant: u32) -> (n: usize)
    ensures
        final(buf)@ == old(buf)@ + wire_uint(discriminant as nat),
        n == wire_uint(discriminant as nat).len(),
{
    pack_uint(buf, discriminant as u64)
}

/// The position of the first variant that has the discriminant, if one has.
pub open spec fn variant_with(declared: Seq<u32>, discriminant: u32) -> Option<int> {
    if exists|i: int| 0 <= i < declared.len() && declared[i] == discriminant {
        Some(
            choose|i: int|
                0 <= i < declared.len() && declared[i] == discriminant && forall|j: int|
                    0 <= j < i ==> declared[j] != discriminant,
        )
    } else {
        None
    }
}

/// What the bytes say to a reader of discriminants: an unsigned integer of at
/// most 32 bits that one of the declared variants has, and the position of the
/// first variant that has it.
pub open spec fn parse_discriminant(b: Seq<u8>, declared: Seq<u32>) -> Result<(int, int), Error> {
    match parse_uint(b, 4) {
        Ok((n, d)) => match variant_with(declared, d as u32) {
            Some(i) => Ok((n, i)),
            None => Err(Error::InvalidEnumVariant),
        },
        Err(e) => Err(e),
    }
}

/// Where there is a variant with the discriminant, the first such variant is
/// one, and none before it is.
pub proof fn lemma_variant_with(declared: Seq<u32>, discriminant: u32)
    ensures
        match variant_with(declared, discriminant) {
            Some(i) => 0 <= i < declared.len() && declared[i] == discriminant && forall|j: int|
                0 <= j < i ==> declared[j] != discriminant,
            None => forall|j: int| 0 <= j < declared.len() ==> declared[j] != discriminant,
        },
{
    if exists|i: int| 0 <= i < declared.len() && declared[i] == discriminant {
        let w = choose|i: int| 0 <= i < declared.len() && declared[i] == discriminant;
        lemma_first_exists(declared, discriminant, w);
    }
}

/// Among the variants that have the discriminant there is a first.
proof fn lemma_first_exists(declared: Seq<u32>, discriminant: u32, w: int)
    requires
        0 <= w < declared.len(),
        declared[w] == discriminant,
    ensures
        exists|i: int|
            0 <= i < declared.len() && declared[i] == discriminant && forall|j: int|
                0 <= j < i ==> declared[j] != discriminant,
    decreases w,
{
    if exists|k: int| 0 <= k < w && declared[k] == discriminant {
        let k = choose|k: int| 0 <= k < w && declared[k] == discriminant;
        lemma_first_exists(declared, discriminant, k);
    } else {
        assert(0 <= w < declared.len() && declared[w] == discriminant && forall|j: int|
            0 <= j < w ==> declared[j] != discriminant);
    }
}

/// Reads the discriminant of a variant off the front of the buffer: the
/// number of bytes it took and the position of the variant among the declared
/// ones. A discriminant that no declared variant has is an invalid variant.
pub fn unpack_discriminant(buf: &[u8], declared: &[u32]) -> (r: Result<(usize, usize), Error>)
    ensures
        match r {
            Ok((n, i)) => parse_discriminant(buf@, declared@) == Ok::<(int, int), Error>(
                (n as int, i as int),
            ) && n <= buf@.len() && i < declared@.len(),
            Err(e) => parse_discriminant(buf@, declared@) == Err::<(int, int), Error>(e),
        },
{
    proof {
        lemma_pow256_values();
    }
    let (n, d) = match unpack_uint(buf, 4) {
        Ok(p) => p,
        Err(e) => {
            return Err(e);
        },
    };
    let ghost wide = d;
    let d = d as u32;
    proof {
        lemma_variant_with(declared@, d);
    }
    let mut i: usize = 0;
    while i < declared.len()
        invariant
            i <= declared@.len(),
            n <= buf@.len(),
            d == wide,
            parse_uint(buf@, 4) == Ok::<(int, nat), Error>((n as int, wide as nat)),
            match variant_with(declared@, d) {
                Some(w) => 0 <= w < declared@.len() && declared@[w] == d && forall|j: int|
                    0 <= j < w ==> declared@[j] != d,
                None => forall|j: int| 0 <= j < declared@.len() ==> declared@[j] != d,
            },
            forall|j: int| 0 <= j < i ==> declared@[j] != d,
        decreases declared.len() - i,
    {
        if declared[i] == d {
            assert(declared@[i as int] == d);
            return Ok((n, i));
        }
        i = i + 1;
    }
    Err(Error::InvalidEnumVariant)
}

/// Reading the bytes of a variant gives back the position of the variant,
/// where no variant before it has the same discriminant, and leaves the bytes
/// of the fields to be read.
pub proof fn lemma_variant_round_trip(
    declared: Seq<u32>,
    k: int,
    fields: Seq<Seq<u8>>,
    rest: Seq<u8>,
)
    requires
        0 <= k < declared.len(),
        forall|j: int| 0 <= j < k ==> declared[j] != declared[k],
    ensures
        ({
            let tag = wire_uint(declared[k] as nat);
            let b = wire_variant(declared[k], fields) + rest;
            &&& parse_discriminant(b, declared) == Ok::<(int, int), Error>((tag.len() as int, k))
            &&& b.skip(tag.len() as int) == wire_record(fields) + rest
        }),
{
    lemma_pow256_values();
    let tag = wire_uint(declared[k] as nat);
    let b = wire_variant(declared[k], fields) + rest;
    lemma_uint_round_trip(declared[k] as nat, 4, wire_record(fields) + rest);
    assert(b =~= tag + (wire_record(fields) + rest));
    assert(b.skip(tag.len() as int) =~= wire_record(fields) + rest);
    lemma_variant_with(declared, declared[k]);
}

/// A vector of bytes is written under a binary tag, and a vector of anything
/// else, be it strings or integers of 16 bits, under an array tag.
pub proof fn lemma_bytes_are_not_a_sequence<X: Packable>(bytes: Seq<u8>, items: Seq<X::V>)
    requires
        bytes.len() <= 0xffff_ffff,
        items.len() <= 0xffff_ffff,
    ensures
        0xc4 <= wire_bin(bytes)[0] <= 0xc6,
        0x90 <= wire_array::<X>(items)[0] <= 0x9f || 0xdc <= wire_array::<X>(items)[0] <= 0xdd,
{
    lemma_wire_bin_len(bytes);
    lemma_collection_header_len(items.len());
}

} // verus!
