pub mod binary;
pub mod collections;
pub mod common;
pub mod integer;
pub mod tuple;

pub use binary::{pack_binary, pack_str_bytes, wire_bin, wire_str, wire_str_bytes};
pub use collections::{
    pack_array, pack_array_len, pack_map, pack_map_len, wire_array, wire_array_len, wire_map,
    wire_map_len, wire_pairs, wire_seq,
};
pub use integer::{pack_int, pack_uint, wire_int, wire_uint};
