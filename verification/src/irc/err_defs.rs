//! Numeric error replies of RFC 2812.
use vstd::prelude::*;

verus! {

pub const ERR_UNKNOWNERROR: u16 = 400;
pub const ERR_NOSUCHNICK: u16 = 401;
pub const ERR_NOSUCHCHANNEL: u16 = 403;
pub const ERR_CANNOTSENDTOCHAN: u16 = 404;
pub const ERR_UNKNOWNCOMMAND: u16 = 421;
pub const ERR_ERRONEOUSNICKNAME: u16 = 432;
pub const ERR_NICKNAMEINUSE: u16 = 433;
pub const ERR_NOTONCHANNEL: u16 = 442;
pub const ERR_NOTREGISTERED: u16 = 451;
pub const ERR_NEEDMOREPARAMS: u16 = 461;
pub const ERR_ALREADYREGISTRED: u16 = 462;
pub const ERR_CHANOPRIVSNEEDED: u16 = 482;

} // verus!
