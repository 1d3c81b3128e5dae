//! Message envelope authentication and error signalling for a permissioned
//! ledger node: identities, the error taxonomy with its message templates,
//! the binary codecs, and the signed envelope protocol.

pub mod bytes;
pub mod cbor;
pub mod cose;
pub mod crypto;
pub mod identity;
pub mod message;
pub mod optional;
pub mod sorted;
pub mod storage;
pub mod text;

pub use identity::Identity;
pub use message::error::OmniError;
pub use message::request::RequestMessage;
pub use message::response::ResponseMessage;
