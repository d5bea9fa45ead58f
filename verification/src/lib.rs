//! A small IRC daemon's protocol core: message framing buffers, the RFC 2812
//! token grammar, IRCv3 message tags, prefixes and numeric replies.
pub mod text;
pub mod irc;
pub mod buffer;
pub mod client_io;
pub mod scratch;
pub mod parser;
pub mod names;
pub mod server;
pub mod clock;
