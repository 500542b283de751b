//! The record of a connected client.

use vstd::prelude::*;
use vstd::string::*;

verus! {

/// The server's record of one connected client. The connection itself is
/// kept by the program around the library, under the same `client_id`.
#[derive(Debug, Clone, PartialEq, Eq)]
pub struct User {
    pub client_id: u64,
    pub host: String,
    pub nickname: Option<String>,
    pub username: Option<String>,
    pub realname: Option<String>,
}

pub struct UserView {
    pub client_id: u64,
    pub host: Seq<char>,
    pub nickname: Option<Seq<char>>,
    pub username: Option<Seq<char>>,
    pub realname: Option<Seq<char>>,
}

impl View for User {
    type V = UserView;

    open spec fn view(&self) -> UserView {
        UserView {
            client_id: self.client_id,
            host: self.host@,
            nickname: self.nickname.deep_view(),
            username: self.username.deep_view(),
            realname: self.realname.deep_view(),
        }
    }
}

impl UserView {
    /// A client is registered once it has given both NICK and USER.
    pub open spec fn registered(self) -> bool {
        self.nickname is Some && self.username is Some
    }

    /// The host and the nickname, where there is one, are not empty: both
    /// are written as parameters of outgoing messages.
    pub open spec fn wf(self) -> bool {
        &&& self.host.len() > 0
        &&& self.nickname matches Some(nickname) ==> nickname.len() > 0
    }
}

impl User {
    pub fn new(client_id: u64, host: String) -> (user: Self)
        ensures
            user@ == (UserView {
                client_id,
                host: host@,
                nickname: None,
                username: None,
                realname: None,
            }),
    {
        Self { client_id, host, nickname: None, username: None, realname: None }
    }

    pub fn is_registered(&self) -> (r: bool)
        ensures
            r == self@.registered(),
    {
        self.nickname.is_some() && self.username.is_some()
    }
}

} // verus!
