//! Decoder and validator for saved browser-tab session documents.
//!
//! A session export is a JSON array of session objects. Windows and tabs are
//! encoded as objects keyed by opaque string identifiers; this crate decodes
//! them into ordered sequences of (identifier, value) pairs, preserving the
//! order in which the keys appear in the document, and checks each session's
//! declared tab count against the number of tabs actually present.

pub mod decode;
pub mod json;
pub mod session;

pub use json::JsonMember;
pub use json::JsonValue;
pub use session::DecodeError;
pub use session::Field;
pub use session::TSMConfig;
pub use session::TSMObject;
pub use session::TSMSession;
pub use session::TSMTab;
pub use session::TSMWindow;
