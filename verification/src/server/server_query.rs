//! The handle through which the dispatcher reads and changes the server
//! state.

use crate::config::ServerConfig;
use crate::models::channel::is_channel_name;
use crate::models::Channel;
use crate::models::ChannelView;
use crate::models::User;
use crate::models::UserView;
use crate::server::channel_views;
use crate::server::user_views;
use crate::server::Server;
use crate::server::ServerView;
use vstd::prelude::*;
use vstd::string::*;

verus! {

/// The server state together with the client on whose behalf an action
/// runs. To act for another client, a new handle is made around the same
/// server.
pub struct ServerQuery<'a> {
    pub server: &'a mut Server,
    pub client_id: u64,
}

/// The records of those of `clients` that are in the user table, in the
/// order of `clients`.
pub open spec fn member_records(state: ServerView, clients: Seq<u64>) -> Seq<UserView>
    decreases clients.len(),
{
    if clients.len() == 0 {
        Seq::<UserView>::empty()
    } else {
        let init = member_records(state, clients.drop_last());
        match state.find_user(clients.last()) {
            Some(user) => init.push(user),
            None => init,
        }
    }
}

/// The views of a list of borrowed records.
pub open spec fn record_views(users: Seq<&User>) -> Seq<UserView> {
    users.map_values(|user: &User| user@)
}

impl<'a> ServerQuery<'a> {
    /// The server state as the handle sees it now.
    pub open spec fn state(&self) -> ServerView {
        (*self.server)@
    }

    pub fn new(server: &'a mut Server, client_id: u64) -> (query: Self)
        ensures
            query.client_id == client_id,
            *query.server == *old(server),
            *final(query.server) == *final(server),
    {
        Self { server, client_id }
    }

    //
    // Server
    //
    pub fn server(&self) -> (server: &Server)
        ensures
            server@ == self.state(),
    {
        &*self.server
    }

    pub fn server_mut(&mut self) -> (server: &mut Server)
        ensures
            *server == *old(self).server,
            *final(self).server == *final(server),
            final(self).client_id == old(self).client_id,
            *final(final(self).server) == *final(old(self).server),
    {
        &mut *self.server
    }

    pub fn server_host(&self) -> (host: &str)
        ensures
            host@ == self.state().config.host,
    {
        self.server.config.host.as_str()
    }

    pub fn server_name(&self) -> (name: &str)
        ensures
            name@ == self.state().config.name,
    {
        self.server.config.name.as_str()
    }

    pub fn server_startup_time(&self) -> (time: String)
        ensures
            time@ == self.state().startup_time,
    {
        self.server.startup_time.clone()
    }

    pub fn server_config(&self) -> (config: &ServerConfig)
        ensures
            config@ == self.state().config,
    {
        &self.server.config
    }

    //
    // User
    //
    /// The record of the client that the handle is bound to.
    pub fn user(&self) -> (user: &User)
        requires
            self.state().has_user(self.client_id),
        ensures
            user@ == self.state().user(self.client_id),
    {
        proof {
            self.state().user_ids().index_of_first_ensures(self.client_id);
        }
        let i = self.server.user_index(self.client_id).unwrap();
        &self.server.users[i]
    }

    pub fn user_find_by_client_id(&self, client_id: u64) -> (user: Option<&User>)
        ensures
            user.is_some() == self.state().has_user(client_id),
            self.state().find_user(client_id) == match user {
                Some(user) => Some(user@),
                None => None,
            },
    {
        proof {
            self.state().user_ids().index_of_first_ensures(client_id);
        }
        match self.server.user_index(client_id) {
            Some(i) => Some(&self.server.users[i]),
            None => None,
        }
    }

    /// The first user whose nickname is exactly `nickname`.
    pub fn user_find_by_nickname(&self, nickname: &str) -> (user: Option<&User>)
        ensures
            self.state().find_nickname(nickname@) == match user {
                Some(user) => Some(user@),
                None => None,
            },
    {
        match self.server.nickname_index(nickname) {
            Some(i) => Some(&self.server.users[i]),
            None => None,
        }
    }

    pub fn user_count(&self) -> (count: usize)
        ensures
            count == self.state().users.len(),
    {
        self.server.users.len()
    }

    /// The nickname of the bound client, which must have one.
    pub fn user_nick_unsafe(&self) -> (nickname: String)
        requires
            self.state().has_user(self.client_id),
            self.state().user(self.client_id).nickname is Some,
        ensures
            Some(nickname@) == self.state().user(self.client_id).nickname,
    {
        match &self.user().nickname {
            Some(nickname) => nickname.clone(),
            None => String::new(),
        }
    }

    pub fn user_mut(&mut self) -> (user: &mut User)
        requires
            old(self).state().has_user(old(self).client_id),
        ensures
            user@ == old(self).state().user(old(self).client_id),
            final(self).state() == old(self).state().with_user(
                old(self).client_id,
                (*final(user))@,
            ),
            final(self).client_id == old(self).client_id,
            *final(final(self).server) == *final(old(self).server),
    {
        proof {
            self.state().user_ids().index_of_first_ensures(self.client_id);
        }
        let i = self.server.user_index(self.client_id).unwrap();
        proof {
            let users = self.server.users@;
            assert forall|x: User| #[trigger]
                user_views(users.update(i as int, x)) == user_views(users).update(
                    i as int,
                    x@,
                ) by {
                assert(user_views(users.update(i as int, x)) =~= user_views(users).update(
                    i as int,
                    x@,
                ));
            }
        }
        &mut self.server.users[i]
    }

    pub fn user_host(&self) -> (host: String)
        requires
            self.state().has_user(self.client_id),
        ensures
            host@ == self.state().user(self.client_id).host,
    {
        self.user().host.clone()
    }

    //
    // Channel
    //
    /// Adds an empty channel behind the others, whether or not one of
    /// that name exists.
    pub fn channel_create(&mut self, name: String)
        requires
            is_channel_name(name@),
        ensures
            final(self).state() == (ServerView {
                channels: old(self).state().channels.push(
                    ChannelView {
                        name: name@,
                        topic: Seq::<char>::empty(),
                        clients: Seq::<u64>::empty(),
                        modes: Seq::empty(),
                    },
                ),
                ..old(self).state()
            }),
            final(self).client_id == old(self).client_id,
            *final(final(self).server) == *final(old(self).server),
    {
        let channel = Channel::new(name);
        let ghost before = self.server.channels@;
        self.server.channels.push(channel);
        proof {
            assert(channel_views(before.push(channel)) =~= channel_views(before).push(channel@));
        }
    }

    pub fn channel_find(&self, name: &str) -> (channel: Option<&Channel>)
        ensures
            self.state().find_channel(name@) == match channel {
                Some(channel) => Some(channel@),
                None => None,
            },
    {
        match self.server.channel_index(name) {
            Some(i) => Some(&self.server.channels[i]),
            None => None,
        }
    }

    pub fn channel_exists(&self, name: &str) -> (exists: bool)
        ensures
            exists == self.state().find_channel(name@).is_some(),
    {
        self.server.channel_index(name).is_some()
    }

    /// The channel of that name; it is created, empty and behind the
    /// others, if there is none.
    pub fn channel_get_or_create(&mut self, name: &str) -> (channel: &mut Channel)
        requires
            is_channel_name(name@),
        ensures
            channel@ == match old(self).state().find_channel(name@) {
                Some(found) => found,
                None => ChannelView {
                    name: name@,
                    topic: Seq::<char>::empty(),
                    clients: Seq::<u64>::empty(),
                    modes: Seq::empty(),
                },
            },
            final(self).state() == (ServerView {
                channels: match old(self).state().channel_names().index_of_first(name@) {
                    Some(i) => old(self).state().channels.update(i, (*final(channel))@),
                    None => old(self).state().channels.push((*final(channel))@),
                },
                ..old(self).state()
            }),
            final(self).client_id == old(self).client_id,
            *final(final(self).server) == *final(old(self).server),
    {
        let ghost before = self.server.channels@;
        let found = self.server.channel_index(name);
        let i: usize = match found {
            Some(i) => i,
            None => {
                self.server.channels.push(Channel::new(name.to_owned()));
                self.server.channels.len() - 1
            },
        };
        proof {
            let now = self.server.channels@;
            assert forall|x: Channel| #[trigger]
                channel_views(now.update(i as int, x)) == (if found is Some {
                    channel_views(before).update(i as int, x@)
                } else {
                    channel_views(before).push(x@)
                }) by {
                if found is Some {
                    assert(channel_views(now.update(i as int, x)) =~= channel_views(
                        before,
                    ).update(i as int, x@));
                } else {
                    assert(channel_views(now.update(i as int, x)) =~= channel_views(before).push(
                        x@,
                    ));
                }
            }
        }
        &mut self.server.channels[i]
    }

    /// The records of the members of a channel, in the order in which they
    /// joined.
    pub fn channel_users(&self, name: &str) -> (users: Option<Vec<&User>>)
        ensures
            users.is_some() == self.state().find_channel(name@).is_some(),
            users matches Some(list) ==> record_views(list@) == member_records(
                self.state(),
                self.state().find_channel(name@)->0.clients,
            ),
    {
        let channel = match self.channel_find(name) {
            Some(channel) => channel,
            None => {
                return None;
            },
        };
        let clients = channel.clients();
        let mut users: Vec<&User> = Vec::new();
        let mut i: usize = 0;
        while i < clients.len()
            invariant
                i <= clients.len(),
                record_views(users@) == member_records(self.state(), clients@.take(i as int)),
            decreases clients.len() - i,
        {
            let ghost before = users@;
            proof {
                assert(clients@.take(i as int + 1).drop_last() =~= clients@.take(i as int));
            }
            match self.user_find_by_client_id(clients[i]) {
                Some(user) => {
                    users.push(user);
                    proof {
                        assert(record_views(before.push(user)) =~= record_views(before).push(
                            user@,
                        ));
                    }
                },
                None => {},
            }
            i = i + 1;
        }
        proof {
            assert(clients@.take(i as int) =~= clients@);
        }
        Some(users)
    }
}

} // verus!
