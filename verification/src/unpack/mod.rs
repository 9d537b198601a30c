pub mod binary;
pub mod collections;
pub mod common;
pub mod integer;
pub mod tuple;

pub use binary::{
    parse_bin, parse_str, str_of_bytes, unpack_binary, unpack_binary_iter, unpack_str,
    unpack_string_iter,
};
pub use collections::{
    parse_array, parse_array_len, parse_map, parse_map_len, parse_pairs, parse_seq, unpack_array,
    unpack_array_iter, unpack_array_len, unpack_array_len_iter, unpack_map_len,
    unpack_map, unpack_map_iter, unpack_map_len_iter, unpack_pairs, unpack_pairs_iter, unpack_seq,
    unpack_seq_iter,
};
pub use integer::{parse_int, parse_uint, unpack_int, unpack_int_iter, unpack_uint, unpack_uint_iter};
