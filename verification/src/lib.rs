//! A verified core for a UEFI shell application: a UCS-2 / UTF-8 string
//! codec, owned UCS-2 string types, a protocol resolution and lifetime
//! cache keyed by (identifier, handle), signature-list parsing, and the
//! byte-layout builders used by authenticated variables.
//!
//! Firmware itself (boot services, runtime services, console) is reached
//! only through the `ServiceAccessor` trait; the code that talks to the
//! machine lives outside this library and hands plain values in.

pub mod auth_variable;
pub mod con_in;
pub mod conout;
pub mod encoder;
pub mod image_authentication;
pub mod os_str;
pub mod os_string;
pub mod protocol_cache;
pub mod protocol_utility;
pub mod protocol_wrapper;
pub mod rustified;
pub mod util;
pub mod variable;

pub use encoder::Error;
