//! A zero-copy binary format: a formula gives the shape of a type's encoding, values are
//! written into an inline lane and a trailing lane, and read back from them.

pub mod buffer;
pub mod bytes;
pub mod conform;
pub mod derive;
pub mod deserialize;
pub mod encode;
pub mod error;
pub mod formula;
pub mod hint;
pub mod laws;
pub mod le;
pub mod primitive;
pub mod roundtrip;
pub mod scalar;
pub mod schema;
pub mod seq;
pub mod serialize;
pub mod size;
pub mod slice;
pub mod soundness;
pub mod truncation;
pub mod value;
pub mod wire;
