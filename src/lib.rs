//! Decoding and re-encoding of a binary save container whose fields are found
//! by byte markers rather than by an index.
pub mod locate;
pub mod codec;
pub mod catalog;
pub mod error;
pub mod items;
pub mod resources;
pub mod save_file;
pub mod deep_rock_galactic;
