//! Error codes.

use vstd::prelude::*;

verus! {

// JOIN
pub const ERR_NOSUCHCHANNEL: &'static str = "403";

// NICK
pub const ERR_NONICKNAMEGIVEN: &'static str = "431";

pub const ERR_NICKNAMEINUSE: &'static str = "433";

// Commands that need a registered client
pub const ERR_NOTREGISTERED: &'static str = "451";

// USER
pub const ERR_NEEDMOREPARAMS: &'static str = "461";

pub const ERR_ALREADYREGISTRED: &'static str = "462";

} // verus!
