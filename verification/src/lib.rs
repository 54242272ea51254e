//! A client for TessariDB: everything it decides and computes, and nothing it does on a socket.
//!
//! # Two transports, and the choice is forced
//!
//! A node serves two surfaces and neither carries everything. Statements and subscriptions go over
//! the wire protocol, because it carries the store's full model of seventeen value types. Objects,
//! files, backup and the operational routes go over HTTP, because nothing else serves them.
//!
//! The wire half is [`Client`]. The HTTP half begins at [`Operations`], which reaches the
//! operational routes, the backup route, and, through [`Bucket`], the object and file surface.
//!
//! # Open a session before making many HTTP calls
//!
//! HTTP has no connection for a node to remember an identity on, so a handle presenting a password
//! presents it on every request, and the node verifies it with a slow hash every time.
//! [`Operations::open_session`] spends the password once and holds a token instead.
//!
//! # There is no TLS on this protocol
//!
//! Credentials travel as they are given. A node belongs on a network you protect or behind
//! something that terminates TLS.

pub mod bytes;
pub mod client;
pub mod codec;
pub mod double;
pub mod error;
pub mod feed;
pub mod fields;
pub mod geometry;
pub mod http;
pub mod mapping;
pub mod order;
pub mod protocol;
pub mod query;
pub mod text;
pub mod value;
pub mod wire;

pub use crate::client::Client;
pub use crate::double::Double;
pub use crate::error::{EncodingFault, Error};
pub use crate::feed::Feed;
pub use crate::geometry::{Geometry, Polygon, Position, Ring};
pub use crate::http::{Bucket, Condition, Operations};
pub use crate::mapping::{FromRecord, FromValue, MappingFault, Row};
pub use crate::value::{Bound, Fields, Number, RecordId, RecordRef, Value, ValueRange};
pub use crate::wire::message::{
    Answer, Correction, Exact, Names, Note, Parameters, Request, Suggested,
};
pub use crate::wire::push::{Became, Change, Follow};
