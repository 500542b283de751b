//! Reply and error codes of the IRC protocol family.

pub mod errors;
pub mod replies;

pub use errors::ERR_ALREADYREGISTRED;
pub use errors::ERR_NEEDMOREPARAMS;
pub use errors::ERR_NICKNAMEINUSE;
pub use errors::ERR_NONICKNAMEGIVEN;
pub use errors::ERR_NOSUCHCHANNEL;
pub use errors::ERR_NOTREGISTERED;
pub use replies::RPL_CREATED;
pub use replies::RPL_ENDOFMOTD;
pub use replies::RPL_ISUPPORT;
pub use replies::RPL_LUSERCLIENT;
pub use replies::RPL_LUSEROP;
pub use replies::RPL_MOTD;
pub use replies::RPL_MOTDSTART;
pub use replies::RPL_MYINFO;
pub use replies::RPL_NAMREPLY;
pub use replies::RPL_TOPIC;
pub use replies::RPL_WELCOME;
pub use replies::RPL_YOURHOST;
