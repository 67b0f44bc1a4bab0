//! The Packed Encoding Rules: a bit-addressed format that writes no tag and
//! leaves out every length that a constraint already fixes.

pub mod de;
pub mod enc;
pub mod laws;
pub mod wire;
