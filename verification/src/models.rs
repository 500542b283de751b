//! The entities that the server keeps: users and channels.

pub mod channel;
pub mod user;

pub use channel::Channel;
pub use channel::ChannelMode;
pub use channel::ChannelModeView;
pub use channel::ChannelRef;
pub use channel::ChannelRefView;
pub use channel::ChannelView;
pub use user::User;
pub use user::UserView;
