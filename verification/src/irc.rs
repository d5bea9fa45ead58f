//! The IRC protocol: token grammar, tags, prefixes, messages and replies.
pub mod rfc_defs;
pub mod tags;
pub mod error;
pub mod err_defs;
pub mod rpl_defs;
pub mod prefix;
pub mod message;
pub mod chan;
pub mod reply;
pub mod command;
