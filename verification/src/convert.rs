use vstd::prelude::*;
use vstd::std_specs::convert::{FromSpecImpl, TryFromSpecImpl};
use crate::error::Error;
use crate::extension::Extension;
use crate::float::Float;
use crate::helpers::{from_twos_complement, lemma_pow256_values, twos_complement};
use crate::integer::Integer;
use crate::map::MapEntry;
use crate::message::Message;
use crate::timestamp::Timestamp;

verus! {

/// The number of an integer as a `u64`: itself from the unsigned lane, and
/// from the signed one the number with the same 64 bits.
pub open spec fn unsigned_of(i: Integer) -> u64 {
    match i {
        Integer::Uint64(u) => u,
        Integer::Int64(v) => twos_complement(v as int, 8) as u64,
    }
}

/// The number of an integer as an `i64`: itself from the signed lane, and
/// from the unsigned one the number with the same 64 bits.
pub open spec fn signed_of(i: Integer) -> i64 {
    match i {
        Integer::Uint64(u) => from_twos_complement(u as nat, 8) as i64,
        Integer::Int64(v) => v,
    }
}

impl From<Integer> for u64 {
    fn from(i: Integer) -> (r: u64) {
        i.as_unsigned()
    }
}

impl FromSpecImpl<Integer> for u64 {
    open spec fn obeys_from_spec() -> bool {
        true
    }

    open spec fn from_spec(i: Integer) -> u64 {
        unsigned_of(i)
    }
}

impl From<Integer> for i64 {
    fn from(i: Integer) -> (r: i64) {
        i.as_signed()
    }
}

impl FromSpecImpl<Integer> for i64 {
    open spec fn obeys_from_spec() -> bool {
        true
    }

    open spec fn from_spec(i: Integer) -> i64 {
        signed_of(i)
    }
}

impl From<Timestamp> for Extension {
    fn from(t: Timestamp) -> (r: Extension) {
        Extension::Timestamp(t)
    }
}

impl FromSpecImpl<Timestamp> for Extension {
    open spec fn obeys_from_spec() -> bool {
        true
    }

    open spec fn from_spec(t: Timestamp) -> Extension {
        Extension::Timestamp(t)
    }
}

impl From<Integer> for Message {
    fn from(v: Integer) -> (r: Message) {
        Message::Integer(v)
    }
}

impl FromSpecImpl<Integer> for Message {
    open spec fn obeys_from_spec() -> bool {
        true
    }

    open spec fn from_spec(v: Integer) -> Message {
        Message::Integer(v)
    }
}

impl From<u8> for Message {
    fn from(v: u8) -> (r: Message) {
        Message::Integer(Integer::Uint64(v as u64))
    }
}

impl FromSpecImpl<u8> for Message {
    open spec fn obeys_from_spec() -> bool {
        true
    }

    open spec fn from_spec(v: u8) -> Message {
        Message::Integer(Integer::Uint64(v as u64))
    }
}

impl From<u16> for Message {
    fn from(v: u16) -> (r: Message) {
        Message::Integer(Integer::Uint64(v as u64))
    }
}

impl FromSpecImpl<u16> for Message {
    open spec fn obeys_from_spec() -> bool {
        true
    }

    open spec fn from_spec(v: u16) -> Message {
        Message::Integer(Integer::Uint64(v as u64))
    }
}

impl From<u32> for Message {
    fn from(v: u32) -> (r: Message) {
        Message::Integer(Integer::Uint64(v as u64))
    }
}

impl FromSpecImpl<u32> for Message {
    open spec fn obeys_from_spec() -> bool {
        true
    }

    open spec fn from_spec(v: u32) -> Message {
        Message::Integer(Integer::Uint64(v as u64))
    }
}

impl From<u64> for Message {
    fn from(v: u64) -> (r: Message) {
        Message::Integer(Integer::Uint64(v as u64))
    }
}

impl FromSpecImpl<u64> for Message {
    open spec fn obeys_from_spec() -> bool {
        true
    }

    open spec fn from_spec(v: u64) -> Message {
        Message::Integer(Integer::Uint64(v as u64))
    }
}

impl From<usize> for Message {
    fn from(v: usize) -> (r: Message) {
        Message::Integer(Integer::Uint64(v as u64))
    }
}

impl FromSpecImpl<usize> for Message {
    open spec fn obeys_from_spec() -> bool {
        true
    }

    open spec fn from_spec(v: usize) -> Message {
        Message::Integer(Integer::Uint64(v as u64))
    }
}

impl From<i8> for Message {
    fn from(v: i8) -> (r: Message) {
        Message::Integer(Integer::Int64(v as i64))
    }
}

impl FromSpecImpl<i8> for Message {
    open spec fn obeys_from_spec() -> bool {
        true
    }

    open spec fn from_spec(v: i8) -> Message {
        Message::Integer(Integer::Int64(v as i64))
    }
}

impl From<i16> for Message {
    fn from(v: i16) -> (r: Message) {
        Message::Integer(Integer::Int64(v as i64))
    }
}

impl FromSpecImpl<i16> for Message {
    open spec fn obeys_from_spec() -> bool {
        true
    }

    open spec fn from_spec(v: i16) -> Message {
        Message::Integer(Integer::Int64(v as i64))
    }
}

impl From<i32> for Message {
    fn from(v: i32) -> (r: Message) {
        Message::Integer(Integer::Int64(v as i64))
    }
}

impl FromSpecImpl<i32> for Message {
    open spec fn obeys_from_spec() -> bool {
        true
    }

    open spec fn from_spec(v: i32) -> Message {
        Message::Integer(Integer::Int64(v as i64))
    }
}

impl From<i64> for Message {
    fn from(v: i64) -> (r: Message) {
        Message::Integer(Integer::Int64(v as i64))
    }
}

impl FromSpecImpl<i64> for Message {
    open spec fn obeys_from_spec() -> bool {
        true
    }

    open spec fn from_spec(v: i64) -> Message {
        Message::Integer(Integer::Int64(v as i64))
    }
}

impl From<isize> for Message {
    fn from(v: isize) -> (r: Message) {
        Message::Integer(Integer::Int64(v as i64))
    }
}

impl FromSpecImpl<isize> for Message {
    open spec fn obeys_from_spec() -> bool {
        true
    }

    open spec fn from_spec(v: isize) -> Message {
        Message::Integer(Integer::Int64(v as i64))
    }
}

impl From<bool> for Message {
    fn from(v: bool) -> (r: Message) {
        Message::Boolean(v)
    }
}

impl FromSpecImpl<bool> for Message {
    open spec fn obeys_from_spec() -> bool {
        true
    }

    open spec fn from_spec(v: bool) -> Message {
        Message::Boolean(v)
    }
}

impl From<Float> for Message {
    fn from(v: Float) -> (r: Message) {
        Message::Float(v)
    }
}

impl FromSpecImpl<Float> for Message {
    open spec fn obeys_from_spec() -> bool {
        true
    }

    open spec fn from_spec(v: Float) -> Message {
        Message::Float(v)
    }
}

impl From<String> for Message {
    fn from(v: String) -> (r: Message) {
        Message::String(v)
    }
}

impl FromSpecImpl<String> for Message {
    open spec fn obeys_from_spec() -> bool {
        true
    }

    open spec fn from_spec(v: String) -> Message {
        Message::String(v)
    }
}

impl From<Vec<u8>> for Message {
    fn from(v: Vec<u8>) -> (r: Message) {
        Message::Bin(v)
    }
}

impl FromSpecImpl<Vec<u8>> for Message {
    open spec fn obeys_from_spec() -> bool {
        true
    }

    open spec fn from_spec(v: Vec<u8>) -> Message {
        Message::Bin(v)
    }
}

impl From<Vec<Message>> for Message {
    fn from(v: Vec<Message>) -> (r: Message) {
        Message::Array(v)
    }
}

impl FromSpecImpl<Vec<Message>> for Message {
    open spec fn obeys_from_spec() -> bool {
        true
    }

    open spec fn from_spec(v: Vec<Message>) -> Message {
        Message::Array(v)
    }
}

impl From<Vec<MapEntry>> for Message {
    fn from(v: Vec<MapEntry>) -> (r: Message) {
        Message::Mapping(v)
    }
}

impl FromSpecImpl<Vec<MapEntry>> for Message {
    open spec fn obeys_from_spec() -> bool {
        true
    }

    open spec fn from_spec(v: Vec<MapEntry>) -> Message {
        Message::Mapping(v)
    }
}

impl From<Extension> for Message {
    fn from(v: Extension) -> (r: Message) {
        Message::Extension(v)
    }
}

impl FromSpecImpl<Extension> for Message {
    open spec fn obeys_from_spec() -> bool {
        true
    }

    open spec fn from_spec(v: Extension) -> Message {
        Message::Extension(v)
    }
}

impl TryFrom<Message> for Integer {
    type Error = Error;

    fn try_from(m: Message) -> (r: Result<Integer, Error>) {
        match m {
            Message::Integer(i) => Ok(i),
            _ => Err(Error::UnexpectedFormatTag),
        }
    }
}

impl TryFromSpecImpl<Message> for Integer {
    open spec fn obeys_try_from_spec() -> bool {
        true
    }

    open spec fn try_from_spec(m: Message) -> Result<Integer, Error> {
        match m {
            Message::Integer(i) => Ok(i),
            _ => Err(Error::UnexpectedFormatTag),
        }
    }
}

impl TryFrom<Message> for u64 {
    type Error = Error;

    fn try_from(m: Message) -> (r: Result<u64, Error>) {
        match m {
            Message::Integer(i) => Ok(i.as_unsigned()),
            _ => Err(Error::UnexpectedFormatTag),
        }
    }
}

impl TryFromSpecImpl<Message> for u64 {
    open spec fn obeys_try_from_spec() -> bool {
        true
    }

    open spec fn try_from_spec(m: Message) -> Result<u64, Error> {
        match m {
            Message::Integer(i) => Ok(unsigned_of(i)),
            _ => Err(Error::UnexpectedFormatTag),
        }
    }
}

impl TryFrom<Message> for i64 {
    type Error = Error;

    fn try_from(m: Message) -> (r: Result<i64, Error>) {
        match m {
            Message::Integer(i) => Ok(i.as_signed()),
            _ => Err(Error::UnexpectedFormatTag),
        }
    }
}

impl TryFromSpecImpl<Message> for i64 {
    open spec fn obeys_try_from_spec() -> bool {
        true
    }

    open spec fn try_from_spec(m: Message) -> Result<i64, Error> {
        match m {
            Message::Integer(i) => Ok(signed_of(i)),
            _ => Err(Error::UnexpectedFormatTag),
        }
    }
}

impl TryFrom<Message> for u8 {
    type Error = Error;

    fn try_from(m: Message) -> (r: Result<u8, Error>) {
        match m {
            Message::Integer(i) => Ok(#[verifier::truncate] (i.as_unsigned() as u8)),
            _ => Err(Error::UnexpectedFormatTag),
        }
    }
}

impl TryFromSpecImpl<Message> for u8 {
    open spec fn obeys_try_from_spec() -> bool {
        true
    }

    open spec fn try_from_spec(m: Message) -> Result<u8, Error> {
        match m {
            Message::Integer(i) => Ok(unsigned_of(i) as u8),
            _ => Err(Error::UnexpectedFormatTag),
        }
    }
}

impl TryFrom<Message> for u16 {
    type Error = Error;

    fn try_from(m: Message) -> (r: Result<u16, Error>) {
        match m {
            Message::Integer(i) => Ok(#[verifier::truncate] (i.as_unsigned() as u16)),
            _ => Err(Error::UnexpectedFormatTag),
        }
    }
}

impl TryFromSpecImpl<Message> for u16 {
    open spec fn obeys_try_from_spec() -> bool {
        true
    }

    open spec fn try_from_spec(m: Message) -> Result<u16, Error> {
        match m {
            Message::Integer(i) => Ok(unsigned_of(i) as u16),
            _ => Err(Error::UnexpectedFormatTag),
        }
    }
}

impl TryFrom<Message> for u32 {
    type Error = Error;

    fn try_from(m: Message) -> (r: Result<u32, Error>) {
        match m {
            Message::Integer(i) => Ok(#[verifier::truncate] (i.as_unsigned() as u32)),
            _ => Err(Error::UnexpectedFormatTag),
        }
    }
}

impl TryFromSpecImpl<Message> for u32 {
    open spec fn obeys_try_from_spec() -> bool {
        true
    }

    open spec fn try_from_spec(m: Message) -> Result<u32, Error> {
        match m {
            Message::Integer(i) => Ok(unsigned_of(i) as u32),
            _ => Err(Error::UnexpectedFormatTag),
        }
    }
}

impl TryFrom<Message> for usize {
    type Error = Error;

    fn try_from(m: Message) -> (r: Result<usize, Error>) {
        match m {
            Message::Integer(i) => Ok(#[verifier::truncate] (i.as_unsigned() as usize)),
            _ => Err(Error::UnexpectedFormatTag),
        }
    }
}

impl TryFromSpecImpl<Message> for usize {
    open spec fn obeys_try_from_spec() -> bool {
        true
    }

    open spec fn try_from_spec(m: Message) -> Result<usize, Error> {
        match m {
            Message::Integer(i) => Ok(unsigned_of(i) as usize),
            _ => Err(Error::UnexpectedFormatTag),
        }
    }
}

impl TryFrom<Message> for i8 {
    type Error = Error;

    fn try_from(m: Message) -> (r: Result<i8, Error>) {
        match m {
            Message::Integer(i) => Ok(#[verifier::truncate] (i.as_signed() as i8)),
            _ => Err(Error::UnexpectedFormatTag),
        }
    }
}

impl TryFromSpecImpl<Message> for i8 {
    open spec fn obeys_try_from_spec() -> bool {
        true
    }

    open spec fn try_from_spec(m: Message) -> Result<i8, Error> {
        match m {
            Message::Integer(i) => Ok(signed_of(i) as i8),
            _ => Err(Error::UnexpectedFormatTag),
        }
    }
}

impl TryFrom<Message> for i16 {
    type Error = Error;

    fn try_from(m: Message) -> (r: Result<i16, Error>) {
        match m {
            Message::Integer(i) => Ok(#[verifier::truncate] (i.as_signed() as i16)),
            _ => Err(Error::UnexpectedFormatTag),
        }
    }
}

impl TryFromSpecImpl<Message> for i16 {
    open spec fn obeys_try_from_spec() -> bool {
        true
    }

    open spec fn try_from_spec(m: Message) -> Result<i16, Error> {
        match m {
            Message::Integer(i) => Ok(signed_of(i) as i16),
            _ => Err(Error::UnexpectedFormatTag),
        }
    }
}

impl TryFrom<Message> for i32 {
    type Error = Error;

    fn try_from(m: Message) -> (r: Result<i32, Error>) {
        match m {
            Message::Integer(i) => Ok(#[verifier::truncate] (i.as_signed() as i32)),
            _ => Err(Error::UnexpectedFormatTag),
        }
    }
}

impl TryFromSpecImpl<Message> for i32 {
    open spec fn obeys_try_from_spec() -> bool {
        true
    }

    open spec fn try_from_spec(m: Message) -> Result<i32, Error> {
        match m {
            Message::Integer(i) => Ok(signed_of(i) as i32),
            _ => Err(Error::UnexpectedFormatTag),
        }
    }
}

impl TryFrom<Message> for isize {
    type Error = Error;

    fn try_from(m: Message) -> (r: Result<isize, Error>) {
        match m {
            Message::Integer(i) => Ok(#[verifier::truncate] (i.as_signed() as isize)),
            _ => Err(Error::UnexpectedFormatTag),
        }
    }
}

impl TryFromSpecImpl<Message> for isize {
    open spec fn obeys_try_from_spec() -> bool {
        true
    }

    open spec fn try_from_spec(m: Message) -> Result<isize, Error> {
        match m {
            Message::Integer(i) => Ok(signed_of(i) as isize),
            _ => Err(Error::UnexpectedFormatTag),
        }
    }
}

impl TryFrom<Message> for bool {
    type Error = Error;

    fn try_from(m: Message) -> (r: Result<bool, Error>) {
        match m {
            Message::Boolean(b) => Ok(b),
            _ => Err(Error::UnexpectedFormatTag),
        }
    }
}

impl TryFromSpecImpl<Message> for bool {
    open spec fn obeys_try_from_spec() -> bool {
        true
    }

    open spec fn try_from_spec(m: Message) -> Result<bool, Error> {
        match m {
            Message::Boolean(b) => Ok(b),
            _ => Err(Error::UnexpectedFormatTag),
        }
    }
}

impl TryFrom<Message> for Float {
    type Error = Error;

    fn try_from(m: Message) -> (r: Result<Float, Error>) {
        match m {
            Message::Float(f) => Ok(f),
            _ => Err(Error::UnexpectedFormatTag),
        }
    }
}

impl TryFromSpecImpl<Message> for Float {
    open spec fn obeys_try_from_spec() -> bool {
        true
    }

    open spec fn try_from_spec(m: Message) -> Result<Float, Error> {
        match m {
            Message::Float(f) => Ok(f),
            _ => Err(Error::UnexpectedFormatTag),
        }
    }
}

impl TryFrom<Message> for String {
    type Error = Error;

    fn try_from(m: Message) -> (r: Result<String, Error>) {
        match m {
            Message::String(s) => Ok(s),
            _ => Err(Error::UnexpectedFormatTag),
        }
    }
}

impl TryFromSpecImpl<Message> for String {
    open spec fn obeys_try_from_spec() -> bool {
        true
    }

    open spec fn try_from_spec(m: Message) -> Result<String, Error> {
        match m {
            Message::String(s) => Ok(s),
            _ => Err(Error::UnexpectedFormatTag),
        }
    }
}

impl TryFrom<Message> for Vec<u8> {
    type Error = Error;

    fn try_from(m: Message) -> (r: Result<Vec<u8>, Error>) {
        match m {
            Message::Bin(b) => Ok(b),
            _ => Err(Error::UnexpectedFormatTag),
        }
    }
}

impl TryFromSpecImpl<Message> for Vec<u8> {
    open spec fn obeys_try_from_spec() -> bool {
        true
    }

    open spec fn try_from_spec(m: Message) -> Result<Vec<u8>, Error> {
        match m {
            Message::Bin(b) => Ok(b),
            _ => Err(Error::UnexpectedFormatTag),
        }
    }
}

impl TryFrom<Message> for Extension {
    type Error = Error;

    fn try_from(m: Message) -> (r: Result<Extension, Error>) {
        match m {
            Message::Extension(e) => Ok(e),
            _ => Err(Error::UnexpectedFormatTag),
        }
    }
}

impl TryFromSpecImpl<Message> for Extension {
    open spec fn obeys_try_from_spec() -> bool {
        true
    }

    open spec fn try_from_spec(m: Message) -> Result<Extension, Error> {
        match m {
            Message::Extension(e) => Ok(e),
            _ => Err(Error::UnexpectedFormatTag),
        }
    }
}

} // verus!
