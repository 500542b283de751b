//! The server state and the event loop that is its only mutator.

use crate::casemap::key_of;
use crate::casemap::nick_key;
use crate::casemap::same_key;
use crate::config::ServerConfig;
use crate::config::ServerConfigView;
use crate::models::Channel;
use crate::models::ChannelView;
use crate::models::User;
use crate::models::UserView;
use crate::server::action::dispatch_spec;
use crate::server::action::outbound_views;
use crate::server::action::Outbound;
use crate::server::action::OutboundView;
use crate::server::action_parser::parse_spec;
use crate::server::action_parser::ActionParser;
use crate::server::server_query::ServerQuery;
use crate::server::state_lemmas::lemma_connected_wf;
use crate::server::state_lemmas::lemma_members_exist;
use crate::server::state_lemmas::lemma_without_client_wf;
use crate::text::str_eq;
use crate::text::trim_end;
use crate::text::trim_end_spec;
use crate::wire::tokenize_spec;
use crate::wire::ParsedMessage;
use crate::wire::ParsedMessageView;
use vstd::prelude::*;
use vstd::string::*;

pub mod action;
pub mod action_parser;
pub mod replies;
pub mod server_query;
pub mod state_lemmas;

verus! {

/// The user table, the channel table, the configuration and the time at
/// which the server started, as text.
pub struct Server {
    config: ServerConfig,
    users: Vec<User>,
    channels: Vec<Channel>,
    startup_time: String,
}

pub struct ServerView {
    pub config: ServerConfigView,
    pub startup_time: Seq<char>,
    /// The user table, in the order in which the clients connected.
    pub users: Seq<UserView>,
    /// The channel table, in the order in which the channels were created.
    pub channels: Seq<ChannelView>,
}

/// What reaches the event loop: a client has connected, a client has
/// gone, or a client has sent a line.
#[derive(Debug, Clone, PartialEq, Eq)]
pub enum ServerEvent {
    ClientConnected { client_id: u64, host: String },
    ClientDisconnected { client_id: u64 },
    IrcCommand { client_id: u64, message: String },
}

pub enum ServerEventView {
    ClientConnected { client_id: u64, host: Seq<char> },
    ClientDisconnected { client_id: u64 },
    IrcCommand { client_id: u64, message: Seq<char> },
}

impl View for ServerEvent {
    type V = ServerEventView;

    open spec fn view(&self) -> ServerEventView {
        match self {
            ServerEvent::ClientConnected { client_id, host } => ServerEventView::ClientConnected {
                client_id: *client_id,
                host: host@,
            },
            ServerEvent::ClientDisconnected { client_id } => ServerEventView::ClientDisconnected {
                client_id: *client_id,
            },
            ServerEvent::IrcCommand { client_id, message } => ServerEventView::IrcCommand {
                client_id: *client_id,
                message: message@,
            },
        }
    }
}

/// What a tokenised message of a client does: nothing if the client is
/// not in the user table or the command is not known; else the effect of
/// the action that the parser finds.
pub open spec fn message_spec(state: ServerView, client_id: u64, message: ParsedMessageView) -> (
    ServerView,
    Seq<OutboundView>,
) {
    if !state.has_user(client_id) {
        (state, Seq::empty())
    } else {
        match parse_spec(message, state.user(client_id)) {
            Some(action) => dispatch_spec(state, client_id, action),
            None => (state, Seq::empty()),
        }
    }
}

/// What a line of a client does: the line is taken without its trailing
/// white space; a line that the tokenizer rejects does nothing.
pub open spec fn line_effect(state: ServerView, client_id: u64, line: Seq<char>) -> (
    ServerView,
    Seq<OutboundView>,
) {
    match tokenize_spec(trim_end_spec(line)) {
        Some(message) => message_spec(state, client_id, message),
        None => (state, Seq::empty()),
    }
}

/// What one event does to the state, and what is sent because of it.
pub open spec fn event_spec(state: ServerView, event: ServerEventView) -> (
    ServerView,
    Seq<OutboundView>,
) {
    match event {
        ServerEventView::ClientConnected { client_id, host } => (
            state.connected(client_id, host),
            Seq::empty(),
        ),
        ServerEventView::ClientDisconnected { client_id } => (
            state.without_client(client_id),
            Seq::empty(),
        ),
        ServerEventView::IrcCommand { client_id, message } => line_effect(
            state,
            client_id,
            message,
        ),
    }
}

pub open spec fn user_views(users: Seq<User>) -> Seq<UserView> {
    users.map_values(|user: User| user@)
}

pub open spec fn channel_views(channels: Seq<Channel>) -> Seq<ChannelView> {
    channels.map_values(|channel: Channel| channel@)
}

impl View for Server {
    type V = ServerView;

    closed spec fn view(&self) -> ServerView {
        ServerView {
            config: self.config@,
            startup_time: self.startup_time@,
            users: user_views(self.users@),
            channels: channel_views(self.channels@),
        }
    }
}

/// The first position of `x` in `s` is `i`.
pub proof fn lemma_first_index<A>(s: Seq<A>, x: A, i: int)
    requires
        0 <= i < s.len(),
        s[i] == x,
        forall|j: int| 0 <= j < i ==> s[j] != x,
    ensures
        s.index_of_first(x) == Some(i),
        s.contains(x),
{
    s.index_of_first_ensures(x);
    assert(s.contains(x));
}

/// `x` has no position in `s`.
pub proof fn lemma_no_index<A>(s: Seq<A>, x: A)
    requires
        forall|j: int| 0 <= j < s.len() ==> s[j] != x,
    ensures
        s.index_of_first(x) is None,
        !s.contains(x),
{
    s.index_of_first_ensures(x);
}

impl ServerView {
    pub open spec fn user_ids(self) -> Seq<u64> {
        self.users.map_values(|user: UserView| user.client_id)
    }

    pub open spec fn nicknames(self) -> Seq<Option<Seq<char>>> {
        self.users.map_values(|user: UserView| user.nickname)
    }

    pub open spec fn channel_names(self) -> Seq<Seq<char>> {
        self.channels.map_values(|channel: ChannelView| channel.name)
    }

    pub open spec fn has_user(self, client_id: u64) -> bool {
        self.user_ids().contains(client_id)
    }

    /// The record of a client: the first one in the table with that id.
    pub open spec fn find_user(self, client_id: u64) -> Option<UserView> {
        match self.user_ids().index_of_first(client_id) {
            Some(i) => Some(self.users[i]),
            None => None,
        }
    }

    /// The record of a client that is in the table.
    pub open spec fn user(self, client_id: u64) -> UserView
        recommends
            self.has_user(client_id),
    {
        self.find_user(client_id)->0
    }

    /// The first user in the table whose nickname is exactly `nickname`.
    pub open spec fn find_nickname(self, nickname: Seq<char>) -> Option<UserView> {
        match self.nicknames().index_of_first(Some(nickname)) {
            Some(i) => Some(self.users[i]),
            None => None,
        }
    }

    /// The channel of that name, if there is one.
    pub open spec fn find_channel(self, name: Seq<char>) -> Option<ChannelView> {
        match self.channel_names().index_of_first(name) {
            Some(i) => Some(self.channels[i]),
            None => None,
        }
    }

    /// Whether a client is in the table and has a nickname.
    pub open spec fn has_nick(self, client_id: u64) -> bool {
        exists|j: int|
            0 <= j < self.users.len() && (#[trigger] self.users[j]).client_id == client_id
                && self.users[j].nickname is Some
    }

    /// Whether a client other than `client_id` holds a nickname that
    /// collides with `nickname` under the configured case mapping.
    pub open spec fn nickname_taken(self, client_id: u64, nickname: Seq<char>) -> bool {
        exists|j: int|
            0 <= j < self.users.len() && (#[trigger] self.users[j]).client_id != client_id && (
            self.users[j].nickname matches Some(other) && nick_key(self.config.feat_casemap, other)
                == nick_key(self.config.feat_casemap, nickname))
    }

    /// No two clients hold nicknames that collide under the configured case
    /// mapping.
    pub open spec fn nicknames_distinct(self) -> bool {
        forall|i: int, j: int|
            0 <= i < self.users.len() && 0 <= j < self.users.len() && i != j && (
            #[trigger] self.users[i]).nickname is Some && (#[trigger] self.users[j]).nickname
                is Some ==> nick_key(self.config.feat_casemap, self.users[i].nickname->0)
                != nick_key(self.config.feat_casemap, self.users[j].nickname->0)
    }

    /// Every member of every channel is in the user table and has a nickname.
    pub open spec fn members_known(self) -> bool {
        forall|i: int, k: int|
            0 <= i < self.channels.len() && 0 <= k < self.channels[i].clients.len()
                ==> self.has_nick(#[trigger] self.channels[i].clients[k])
    }

    /// Every client that is a member of some channel is in the user table.
    pub open spec fn members_exist(self) -> bool {
        forall|i: int, k: int|
            0 <= i < self.channels.len() && 0 <= k < self.channels[i].clients.len()
                ==> self.has_user(#[trigger] self.channels[i].clients[k])
    }

    /// The invariant of the server state.
    pub open spec fn wf(self) -> bool {
        &&& self.config.wf()
        &&& forall|i: int| 0 <= i < self.users.len() ==> (#[trigger] self.users[i]).wf()
        &&& self.user_ids().no_duplicates()
        &&& self.nicknames_distinct()
        &&& forall|i: int| 0 <= i < self.channels.len() ==> (#[trigger] self.channels[i]).wf()
        &&& self.channel_names().no_duplicates()
        &&& self.members_known()
    }

    /// The state with the record of `client_id` replaced by `user`.
    pub open spec fn with_user(self, client_id: u64, user: UserView) -> ServerView {
        match self.user_ids().index_of_first(client_id) {
            Some(i) => ServerView { users: self.users.update(i, user), ..self },
            None => self,
        }
    }

    /// The state after a client has connected from `host`: a new record
    /// behind the others. A client id that is in the table already, or an
    /// empty host, changes nothing.
    pub open spec fn connected(self, client_id: u64, host: Seq<char>) -> ServerView {
        if self.has_user(client_id) || host.len() == 0 {
            self
        } else {
            ServerView {
                users: self.users.push(
                    UserView { client_id, host, nickname: None, username: None, realname: None },
                ),
                ..self
            }
        }
    }

    /// The state without a client: its record leaves the user table, and
    /// its id leaves the member list of every channel.
    pub open spec fn without_client(self, client_id: u64) -> ServerView {
        ServerView {
            users: match self.user_ids().index_of_first(client_id) {
                Some(i) => self.users.remove(i),
                None => self.users,
            },
            channels: self.channels.map_values(|channel: ChannelView| channel.parted(client_id)),
            ..self
        }
    }

    /// The state after `client_id` has joined the channel `name`, which is
    /// created behind the others if it does not exist.
    pub open spec fn with_member(self, name: Seq<char>, client_id: u64) -> ServerView {
        match self.channel_names().index_of_first(name) {
            Some(i) => ServerView {
                channels: self.channels.update(i, self.channels[i].joined(client_id)),
                ..self
            },
            None => ServerView {
                channels: self.channels.push(
                    ChannelView {
                        name,
                        topic: Seq::<char>::empty(),
                        clients: seq![client_id],
                        modes: Seq::empty(),
                    },
                ),
                ..self
            },
        }
    }
}

impl Server {
    /// A server without users or channels.
    pub fn new(config: ServerConfig, startup_time: String) -> (server: Self)
        requires
            config@.wf(),
        ensures
            server@ == (ServerView {
                config: config@,
                startup_time: startup_time@,
                users: Seq::<UserView>::empty(),
                channels: Seq::<ChannelView>::empty(),
            }),
            server@.wf(),
    {
        let server = Self { config, users: Vec::new(), channels: Vec::new(), startup_time };
        proof {
            assert(server@.users =~= Seq::<UserView>::empty());
            assert(server@.channels =~= Seq::<ChannelView>::empty());
        }
        server
    }

    pub fn config(&self) -> (config: &ServerConfig)
        ensures
            config@ == self@.config,
    {
        &self.config
    }

    /// Handles one tokenised message of a client: finds the action that
    /// it asks for and dispatches it. Returns what is to be sent.
    pub fn handle_message(&mut self, client_id: u64, message: ParsedMessage) -> (outbox: Vec<
        Outbound,
    >)
        requires
            old(self)@.wf(),
        ensures
            final(self)@ == message_spec(old(self)@, client_id, message@).0,
            outbound_views(outbox@) == message_spec(old(self)@, client_id, message@).1,
            final(self)@.wf(),
    {
        let mut outbox: Vec<Outbound> = Vec::new();
        proof {
            assert(outbound_views(outbox@) =~= Seq::<OutboundView>::empty());
            self@.user_ids().index_of_first_ensures(client_id);
        }
        if self.user_index(client_id).is_none() {
            return outbox;
        }
        // Initialize server query with mutable self and client id
        let mut query = ServerQuery::new(self, client_id);
        // Parse IRC message
        match ActionParser::parse(message, &mut query) {
            Some(action) => {
                // Dispatch the action
                action.dispatch(&mut query, &mut outbox);
                proof {
                    assert(Seq::<OutboundView>::empty() + dispatch_spec(
                        old(self)@,
                        client_id,
                        action@,
                    ).1 =~= dispatch_spec(old(self)@, client_id, action@).1);
                }
            },
            None => {},
        }
        outbox
    }

    /// Handles one event: the only way in which the server state changes.
    /// Returns what is to be sent, in order.
    pub fn handle_command(&mut self, command: ServerEvent) -> (outbox: Vec<Outbound>)
        requires
            old(self)@.wf(),
        ensures
            final(self)@ == event_spec(old(self)@, command@).0,
            outbound_views(outbox@) == event_spec(old(self)@, command@).1,
            final(self)@.wf(),
            final(self)@.members_exist(),
    {
        let outbox = match command {
            ServerEvent::ClientConnected { client_id, host } => {
                self.add_client(client_id, host);
                let outbox: Vec<Outbound> = Vec::new();
                proof {
                    assert(outbound_views(outbox@) =~= Seq::<OutboundView>::empty());
                }
                outbox
            },
            ServerEvent::ClientDisconnected { client_id } => {
                self.remove_client(client_id);
                let outbox: Vec<Outbound> = Vec::new();
                proof {
                    assert(outbound_views(outbox@) =~= Seq::<OutboundView>::empty());
                }
                outbox
            },
            ServerEvent::IrcCommand { client_id, message } => {
                match ParsedMessage::from_line(trim_end(message.as_str())) {
                    Some(message) => self.handle_message(client_id, message),
                    None => {
                        let outbox: Vec<Outbound> = Vec::new();
                        proof {
                            assert(outbound_views(outbox@) =~= Seq::<OutboundView>::empty());
                        }
                        outbox
                    },
                }
            },
        };
        proof {
            lemma_members_exist(self@);
        }
        outbox
    }

    /// Whether a client other than `client_id` holds a nickname that
    /// collides with `nickname`.
    fn nickname_in_use(&self, client_id: u64, nickname: &str) -> (r: bool)
        ensures
            r == self@.nickname_taken(client_id, nickname@),
    {
        let map = self.config.feat_casemap;
        let key = key_of(map, nickname);
        let mut i: usize = 0;
        while i < self.users.len()
            invariant
                i <= self.users.len(),
                map == self@.config.feat_casemap,
                key@ == nick_key(map, nickname@),
                forall|j: int|
                    0 <= j < i ==> !((#[trigger] self@.users[j]).client_id != client_id && (
                    self@.users[j].nickname matches Some(other) && nick_key(map, other) == nick_key(
                        map,
                        nickname@,
                    ))),
            decreases self.users.len() - i,
        {
            if self.users[i].client_id != client_id {
                match &self.users[i].nickname {
                    Some(other) => {
                        let other_key = key_of(map, other.as_str());
                        if same_key(&other_key, &key) {
                            assert(self@.users[i as int].client_id != client_id);
                            return true;
                        }
                    },
                    None => {},
                }
            }
            i = i + 1;
        }
        false
    }

    /// Adds the record of a client that has connected.
    fn add_client(&mut self, client_id: u64, host: String)
        requires
            old(self)@.wf(),
        ensures
            final(self)@ == old(self)@.connected(client_id, host@),
            final(self)@.wf(),
    {
        proof {
            lemma_connected_wf(self@, client_id, host@);
            self@.user_ids().index_of_first_ensures(client_id);
        }
        if self.user_index(client_id).is_some() || host.as_str().is_empty() {
            return ;
        }
        let ghost before = self.users@;
        let user = User::new(client_id, host);
        self.users.push(user);
        proof {
            assert(user_views(before.push(user)) =~= user_views(before).push(user@));
        }
    }

    /// Removes the record of a client and its membership of every channel.
    fn remove_client(&mut self, client_id: u64)
        requires
            old(self)@.wf(),
        ensures
            final(self)@ == old(self)@.without_client(client_id),
            final(self)@.wf(),
    {
        proof {
            lemma_without_client_wf(self@, client_id);
        }
        let ghost users_before = self.users@;
        match self.user_index(client_id) {
            Some(i) => {
                self.users.remove(i);
                proof {
                    assert(user_views(users_before.remove(i as int)) =~= user_views(
                        users_before,
                    ).remove(i as int));
                }
            },
            None => {},
        }
        let ghost channels_before = self.channels@;
        let ghost users_after = self.users@;
        proof {
            assert forall|j: int| 0 <= j < channels_before.len() implies (
            #[trigger] channels_before[j])@.wf() by {
                assert(old(self)@.channels[j] == channels_before[j]@);
            }
        }
        let mut k: usize = 0;
        while k < self.channels.len()
            invariant
                k <= self.channels.len(),
                self.channels.len() == channels_before.len(),
                self.users@ == users_after,
                self.config == old(self).config,
                self.startup_time == old(self).startup_time,
                forall|j: int|
                    0 <= j < k ==> (#[trigger] self.channels@[j])@ == channels_before[j]@.parted(
                        client_id,
                    ),
                forall|j: int|
                    k <= j < self.channels.len() ==> #[trigger] self.channels@[j]
                        == channels_before[j],
                forall|j: int|
                    0 <= j < channels_before.len() ==> (#[trigger] channels_before[j])@.wf(),
            decreases self.channels.len() - k,
        {
            self.channels[k].remove_user(client_id);
            k = k + 1;
        }
        proof {
            assert(channel_views(self.channels@) =~= channel_views(channels_before).map_values(
                |channel: ChannelView| channel.parted(client_id),
            ));
        }
    }

    /// The first position in the user table of a record with that id.
    fn user_index(&self, client_id: u64) -> (r: Option<usize>)
        ensures
            self@.user_ids().index_of_first(client_id) == match r {
                Some(i) => Some(i as int),
                None => None,
            },
            r matches Some(i) ==> i < self.users.len(),
    {
        let mut i: usize = 0;
        while i < self.users.len()
            invariant
                i <= self.users.len(),
                forall|j: int| 0 <= j < i ==> self@.user_ids()[j] != client_id,
            decreases self.users.len() - i,
        {
            if self.users[i].client_id == client_id {
                proof {
                    lemma_first_index(self@.user_ids(), client_id, i as int);
                }
                return Some(i);
            }
            i = i + 1;
        }
        proof {
            lemma_no_index(self@.user_ids(), client_id);
        }
        None
    }

    /// The first position in the user table of a record with exactly that
    /// nickname.
    fn nickname_index(&self, nickname: &str) -> (r: Option<usize>)
        ensures
            self@.nicknames().index_of_first(Some(nickname@)) == match r {
                Some(i) => Some(i as int),
                None => None,
            },
            r matches Some(i) ==> i < self.users.len(),
    {
        let mut i: usize = 0;
        while i < self.users.len()
            invariant
                i <= self.users.len(),
                forall|j: int| 0 <= j < i ==> self@.nicknames()[j] != Some(nickname@),
            decreases self.users.len() - i,
        {
            let found = match &self.users[i].nickname {
                Some(current) => str_eq(current.as_str(), nickname),
                None => false,
            };
            if found {
                proof {
                    lemma_first_index(self@.nicknames(), Some(nickname@), i as int);
                }
                return Some(i);
            }
            i = i + 1;
        }
        proof {
            lemma_no_index(self@.nicknames(), Some(nickname@));
        }
        None
    }

    /// The position in the channel table of the first channel of that name.
    fn channel_index(&self, name: &str) -> (r: Option<usize>)
        ensures
            self@.channel_names().index_of_first(name@) == match r {
                Some(i) => Some(i as int),
                None => None,
            },
            r matches Some(i) ==> i < self.channels.len(),
    {
        let mut i: usize = 0;
        while i < self.channels.len()
            invariant
                i <= self.channels.len(),
                forall|j: int| 0 <= j < i ==> self@.channel_names()[j] != name@,
            decreases self.channels.len() - i,
        {
            if str_eq(self.channels[i].name(), name) {
                proof {
                    lemma_first_index(self@.channel_names(), name@, i as int);
                }
                return Some(i);
            }
            i = i + 1;
        }
        proof {
            lemma_no_index(self@.channel_names(), name@);
        }
        None
    }
}

} // verus!
