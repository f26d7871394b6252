//! Save a nested data value as a directory tree, one file per leaf field.
//!
//! A [`value::Value`] describes a nested, typed datum: scalars, options,
//! sequences, tuples, maps, structs and enum variants. Serializing it plans a
//! list of file operations (write a file, create a directory, delete a stale
//! artifact), and a materializer applies that plan, in order, to an in-memory
//! file tree that an embedding program can mirror onto a real disk. Each leaf
//! becomes one file whose bytes are the leaf's canonical rendering, so outside
//! tools can watch a single field by watching a single file.

pub mod field;
pub mod fileserializer;
pub mod memfs;
pub mod render;
pub mod save;
pub mod value;
