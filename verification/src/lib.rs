//! Protocol encoding and decoding for a legacy school-information web
//! service.
//!
//! The service accepts a single form-encoded POST whose `paramStr` field is a
//! hand-built XML fragment naming the requested operation's parameters, and
//! answers with an XML document whose schema varies per operation.  This
//! crate holds the typed parameter model and its encoder, the closed
//! enumerations of service handles and methods with their exact wire
//! spellings, the typed response models with their decoders, and the unified
//! error taxonomy.  The HTTP transport itself is an external collaborator.

pub mod client;
pub mod model;
pub mod xml;
pub mod enums;
pub mod error;
pub mod numeric;

pub use client::ParamBuilder;
pub use client::Client;
pub use enums::Method;
