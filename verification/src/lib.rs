//! A codec framework for ASN.1: a tag and constraint model, the contract
//! between data types and wire formats, and the Packed Encoding Rules engine.

pub mod aper;
pub mod bits;
pub mod constraints;
pub mod de;
pub mod enc;
pub mod error;
pub mod integer;
pub mod laws;
pub mod oid;
pub mod per;
pub mod set_of;
pub mod sorted;
pub mod tag;
pub mod tag_map;
pub mod time;
pub mod types;
pub mod uper;
