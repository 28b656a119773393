//! CBOR decoding: the value tree, the byte cursor, the encoding stated as
//! specification functions, and the decoder that is proved against them.
pub mod cursor;
pub mod decoder;
pub mod encoding;
pub mod error;
pub mod theorems;
pub mod value;
