//! Decoder for the world map held in a strategy game's save container:
//! scanning for framed compressed blocks, inflating them, and decoding the
//! tile records of the map that one of them holds.
pub mod container;
pub mod error;
pub mod extract;
pub mod inflate;
pub mod map;
pub mod render;
pub mod search;
