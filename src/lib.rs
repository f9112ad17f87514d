//! Nibble sequences packed in a 256-bit integer, their hex-prefix encoding,
//! and the node type of a partially known Merkle-Patricia trie.

pub mod codec;
pub mod u256;
pub mod nibbles;
pub mod partial_trie;
pub mod utils;
