//! A metadata-driven decoder for SCALE-encoded event payloads.
//!
//! Given a registry of portable type descriptions, a schema listing an
//! event's ordered fields, and a byte cursor over the event's encoded
//! payload, the library reconstructs a structured value tree, field by
//! field, byte-exact.  A specialized sub-decoder handles opaque contract
//! event payloads that are identified by a signature topic and decoded
//! best-effort against a separately supplied schema.

pub mod compact;
pub mod cursor;
pub mod decode;
pub mod display;
pub mod error;
pub mod events;
pub mod hexstr;
pub mod num;
pub mod registry;
pub mod render;
pub mod strconv;
pub mod value;
