//! Core of an LDAP client: everything that is decided without touching a
//! socket, with its behaviour stated in contracts and proved.
//!
//! - `common`, `structure`, `structures`, `universal`: tagged values, generic
//!   and typed, and the shortest form of integers;
//! - `write`, `parse`, `round_trip`: the BER encoder and decoder, and the
//!   proof that the decoder undoes the encoder;
//! - `filter`: the textual search filter and the tree that it denotes;
//! - `controls`, `controls_impl`, `exop_impl`: controls and extended
//!   operations, generic and ready-made;
//! - `messages`, `search`, `result`, `content`, `text`: the requests that a
//!   client writes and the responses that it reads;
//! - `protocol`, `ldap`: message identifiers, the operations in flight, and
//!   what becomes of a response, a deadline, an abandonment or a
//!   disconnection;
//! - `url`: the addresses of servers.

pub mod common;
pub mod content;
pub mod controls;
pub mod controls_impl;
pub mod exop_impl;
pub mod filter;
pub mod ldap;
pub mod messages;
pub mod parse;
pub mod protocol;
pub mod result;
pub mod round_trip;
pub mod search;
pub mod structure;
pub mod structures;
pub mod text;
pub mod universal;
pub mod url;
pub mod write;
