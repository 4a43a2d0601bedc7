//! Wire grammar of the ManageSieve protocol (RFC 5804).
//!
//! A [`Command`] is built through its constructors, which validate script
//! names, and is turned into the text a client sends by
//! [`Command::to_string`].
//!
//! Bytes received from a server are handed to the `response_` function of the
//! command they answer. It returns the decoded data, the [`Response`] status
//! line and the bytes that follow it, or [`Error::IncompleteResponse`] when
//! more bytes are needed, or [`Error::InvalidResponse`] when the server broke
//! the grammar. Nothing is kept between two calls: after
//! `IncompleteResponse` the caller reads on and hands in the whole buffer
//! again. Several responses may stand in one buffer; each call consumes one.
pub mod capability;
pub mod command;
pub mod framing;
pub mod grammar;
pub mod names;
pub mod outcome;
pub mod parser;
pub mod reply;
pub mod stream;
pub mod types;
pub mod vocabulary;

pub use crate::capability::Capability;
pub use crate::command::Command;
pub use crate::outcome::ParseError;
pub use crate::reply::{
    response_authenticate, response_capability, response_checkscript, response_deletescript,
    response_getscript, response_havespace, response_listscripts, response_logout,
    response_noop, response_putscript, response_renamescript, response_setactive,
    response_starttls, response_unauthenticate, ScriptList,
};
pub use crate::types::{Error, OkNoBye, QuotaVariant, Response, ResponseCode, SieveUrl};
