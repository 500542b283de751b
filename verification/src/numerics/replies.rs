//! Reply codes.

use vstd::prelude::*;

verus! {

// Welcome
pub const RPL_WELCOME: &'static str = "001";

pub const RPL_YOURHOST: &'static str = "002";

pub const RPL_CREATED: &'static str = "003";

pub const RPL_MYINFO: &'static str = "004";

pub const RPL_ISUPPORT: &'static str = "005";

// LUSERS
pub const RPL_LUSERCLIENT: &'static str = "251";

pub const RPL_LUSEROP: &'static str = "252";

// Channels
pub const RPL_TOPIC: &'static str = "332";

pub const RPL_NAMREPLY: &'static str = "353";

// MOTD
pub const RPL_MOTDSTART: &'static str = "375";

pub const RPL_MOTD: &'static str = "372";

pub const RPL_ENDOFMOTD: &'static str = "376";

} // verus!
