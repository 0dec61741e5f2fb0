//! A small runtime toolkit: a pool of byte blocks handed out by handle, a
//! byte-level value corruptor, a recursive JSON schema with validation and
//! self-description, a byte-mixing computation and the nested sample record
//! that the demo program serialises.

mod entropy;
pub mod json;
pub mod entries;
pub mod schema;
pub mod pool;
pub mod encode;
pub mod corruptor;
pub mod mixing;
pub mod meta;

