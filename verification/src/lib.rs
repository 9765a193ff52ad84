pub mod error;
pub mod fields;
pub mod ip;
pub mod packet;
pub mod packets;
pub mod scanner;
pub mod status;
pub mod varint;
