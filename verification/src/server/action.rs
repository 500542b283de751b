//! Actions: what the server intends to do for a client, what each action
//! does to the state, and the dispatcher that carries it out.

use crate::models::channel::is_channel_name;
use crate::models::channel::lemma_without_contains;
use crate::models::channel::lemma_without_step;
use crate::models::channel::without;
use crate::models::ChannelRef;
use crate::models::ChannelRefView;
use crate::models::User;
use crate::models::UserView;
use crate::numerics::ERR_NICKNAMEINUSE;
use crate::numerics::RPL_TOPIC;
use crate::server::replies::error_line;
use crate::server::replies::join_line;
use crate::server::replies::lemma_acting_user;
use crate::server::replies::lemma_lines_to_add;
use crate::server::replies::line_to;
use crate::server::replies::lines_to;
use crate::server::replies::motd_lines;
use crate::server::replies::one;
use crate::server::replies::pong_line;
use crate::server::replies::privmsg_line;
use crate::server::replies::send;
use crate::server::replies::send_error;
use crate::server::replies::send_motd;
use crate::server::replies::send_welcome;
use crate::server::replies::topic_line;
use crate::server::replies::two;
use crate::server::replies::welcome_lines;
use crate::server::server_query::ServerQuery;
use crate::server::state_lemmas::lemma_has_nick;
use crate::server::state_lemmas::lemma_user_at;
use crate::server::state_lemmas::lemma_with_member_wf;
use crate::server::state_lemmas::lemma_with_user_wf;
use crate::server::ServerView;
use crate::wire::render;
use vstd::prelude::*;
use vstd::string::*;

verus! {

/// The version that the server reports of itself.
pub const SOFTWARE_VERSION: &'static str = "0.1.0";

/// What the server intends to do for one client.
#[derive(Debug, Clone, PartialEq, Eq)]
pub enum Action {
    Error { code: &'static str },
    Pong { challenge: Option<String> },
    SetNick { nickname: String },
    ChangeNick { prev_nickname: String, nickname: String },
    SetUserAndRealName { username: String, realname: String },
    SendWelcomeSequence,
    Motd,
    Quit { reason: Option<String> },
    Join { channels: Vec<ChannelRef> },
    JoinInform { channel: String },
    PrivateMessage { message: String, users: Vec<String>, channels: Vec<String> },
    PrivateMessageUser { message: String, from_nickname: String },
    PrivateMessageChannel { message: String, channel: String, from_nickname: String },
}

pub enum ActionView {
    Error { code: Seq<char> },
    Pong { challenge: Option<Seq<char>> },
    SetNick { nickname: Seq<char> },
    ChangeNick { prev_nickname: Seq<char>, nickname: Seq<char> },
    SetUserAndRealName { username: Seq<char>, realname: Seq<char> },
    SendWelcomeSequence,
    Motd,
    Quit { reason: Option<Seq<char>> },
    Join { channels: Seq<ChannelRefView> },
    JoinInform { channel: Seq<char> },
    PrivateMessage { message: Seq<char>, users: Seq<Seq<char>>, channels: Seq<Seq<char>> },
    PrivateMessageUser { message: Seq<char>, from_nickname: Seq<char> },
    PrivateMessageChannel { message: Seq<char>, channel: Seq<char>, from_nickname: Seq<char> },
}

pub open spec fn channel_ref_views(channels: Seq<ChannelRef>) -> Seq<ChannelRefView> {
    channels.map_values(|channel: ChannelRef| channel@)
}

impl View for Action {
    type V = ActionView;

    open spec fn view(&self) -> ActionView {
        match self {
            Action::Error { code } => ActionView::Error { code: code@ },
            Action::Pong { challenge } => ActionView::Pong { challenge: challenge.deep_view() },
            Action::SetNick { nickname } => ActionView::SetNick { nickname: nickname@ },
            Action::ChangeNick { prev_nickname, nickname } => ActionView::ChangeNick {
                prev_nickname: prev_nickname@,
                nickname: nickname@,
            },
            Action::SetUserAndRealName { username, realname } => ActionView::SetUserAndRealName {
                username: username@,
                realname: realname@,
            },
            Action::SendWelcomeSequence => ActionView::SendWelcomeSequence,
            Action::Motd => ActionView::Motd,
            Action::Quit { reason } => ActionView::Quit { reason: reason.deep_view() },
            Action::Join { channels } => ActionView::Join {
                channels: channel_ref_views(channels@),
            },
            Action::JoinInform { channel } => ActionView::JoinInform { channel: channel@ },
            Action::PrivateMessage { message, users, channels } => ActionView::PrivateMessage {
                message: message@,
                users: users.deep_view(),
                channels: channels.deep_view(),
            },
            Action::PrivateMessageUser { message, from_nickname } => ActionView::PrivateMessageUser {
                message: message@,
                from_nickname: from_nickname@,
            },
            Action::PrivateMessageChannel {
                message,
                channel,
                from_nickname,
            } => ActionView::PrivateMessageChannel {
                message: message@,
                channel: channel@,
                from_nickname: from_nickname@,
            },
        }
    }
}

/// What the program around the library has to do for the server: write a
/// line to a client's connection, or close it.
#[derive(Debug, Clone, PartialEq, Eq)]
pub enum Outbound {
    Line { client_id: u64, line: String },
    Close { client_id: u64 },
}

pub enum OutboundView {
    Line { client_id: u64, line: Seq<char> },
    Close { client_id: u64 },
}

impl View for Outbound {
    type V = OutboundView;

    open spec fn view(&self) -> OutboundView {
        match self {
            Outbound::Line { client_id, line } => OutboundView::Line {
                client_id: *client_id,
                line: line@,
            },
            Outbound::Close { client_id } => OutboundView::Close { client_id: *client_id },
        }
    }
}

pub open spec fn outbound_views(outbox: Seq<Outbound>) -> Seq<OutboundView> {
    outbox.map_values(|outbound: Outbound| outbound@)
}

/// The JOIN notices for the members of a channel: each member, in join
/// order, is told of a JOIN under its own nickname.
pub open spec fn join_notices(state: ServerView, members: Seq<u64>, channel: Seq<char>) -> Seq<
    OutboundView,
> {
    members.map_values(
        |member: u64| line_to(member, join_line(state.user(member).nickname->0, channel)),
    )
}

/// One copy of a channel message for each of `recipients`, in order.
pub open spec fn channel_copies(
    recipients: Seq<u64>,
    from: Seq<char>,
    channel: Seq<char>,
    message: Seq<char>,
) -> Seq<OutboundView> {
    recipients.map_values(|member: u64| line_to(member, privmsg_line(from, channel, message)))
}

/// What a NICK does: the nickname is set, unless another client holds one
/// that collides with it, which is answered with `ERR_NICKNAMEINUSE`.
pub open spec fn set_nick_spec(state: ServerView, client_id: u64, nickname: Seq<char>) -> (
    ServerView,
    Seq<OutboundView>,
) {
    let user = state.user(client_id);
    if state.nickname_taken(client_id, nickname) {
        (state, seq![line_to(client_id, error_line(state, user, ERR_NICKNAMEINUSE@))])
    } else {
        (
            state.with_user(client_id, UserView { nickname: Some(nickname), ..user }),
            Seq::empty(),
        )
    }
}

/// What joining one channel does: the channel exists afterwards and has
/// the client as a member; the client is sent the topic if there is one;
/// then every member is sent a JOIN notice.
pub open spec fn join_one_spec(state: ServerView, client_id: u64, name: Seq<char>) -> (
    ServerView,
    Seq<OutboundView>,
) {
    let after = state.with_member(name, client_id);
    let channel = after.find_channel(name)->0;
    let nickname = state.user(client_id).nickname->0;
    let topic = if channel.topic.len() > 0 {
        seq![line_to(client_id, topic_line(nickname, name, channel.topic))]
    } else {
        Seq::empty()
    };
    (after, topic + join_notices(after, channel.clients, name))
}

/// Joining several channels, one after the other.
pub open spec fn join_all_spec(state: ServerView, client_id: u64, channels: Seq<ChannelRefView>) -> (
    ServerView,
    Seq<OutboundView>,
)
    decreases channels.len(),
{
    if channels.len() == 0 {
        (state, Seq::empty())
    } else {
        let (before, sent) = join_all_spec(state, client_id, channels.drop_last());
        let (after, more) = join_one_spec(before, client_id, channels.last().name);
        (after, sent + more)
    }
}

/// The private messages to users: one for each target, in order, that is
/// the nickname of a user; the others are dropped.
pub open spec fn user_deliveries(
    state: ServerView,
    from: Seq<char>,
    message: Seq<char>,
    targets: Seq<Seq<char>>,
) -> Seq<OutboundView>
    decreases targets.len(),
{
    if targets.len() == 0 {
        Seq::empty()
    } else {
        let sent = user_deliveries(state, from, message, targets.drop_last());
        match state.find_nickname(targets.last()) {
            Some(user) => sent.push(
                line_to(user.client_id, privmsg_line(from, targets.last(), message)),
            ),
            None => sent,
        }
    }
}

/// The messages to channels: for each target, in order, that is the name
/// of a channel, one copy for each member but the sender, in join order;
/// the other targets are dropped.
pub open spec fn channel_deliveries(
    state: ServerView,
    sender: u64,
    from: Seq<char>,
    message: Seq<char>,
    targets: Seq<Seq<char>>,
) -> Seq<OutboundView>
    decreases targets.len(),
{
    if targets.len() == 0 {
        Seq::empty()
    } else {
        let sent = channel_deliveries(state, sender, from, message, targets.drop_last());
        match state.find_channel(targets.last()) {
            Some(channel) => sent + channel_copies(
                without(channel.clients, sender),
                from,
                targets.last(),
                message,
            ),
            None => sent,
        }
    }
}

impl ActionView {
    /// What an action needs so that every message it sends can be written:
    /// no code, nickname or channel name that becomes a command, a prefix
    /// or a parameter is empty, and a channel to join has a channel name.
    pub open spec fn wf(self) -> bool {
        match self {
            ActionView::Error { code } => code.len() > 0,
            ActionView::Pong { challenge } => challenge matches Some(text) ==> text.len() > 0,
            ActionView::SetNick { nickname } => nickname.len() > 0,
            ActionView::ChangeNick { prev_nickname, nickname } => nickname.len() > 0,
            ActionView::Join { channels } => forall|i: int|
                0 <= i < channels.len() ==> is_channel_name((#[trigger] channels[i]).name),
            ActionView::JoinInform { channel } => channel.len() > 0,
            ActionView::PrivateMessageUser { message, from_nickname } => from_nickname.len() > 0,
            ActionView::PrivateMessageChannel { message, channel, from_nickname } => channel.len()
                > 0 && from_nickname.len() > 0,
            _ => true,
        }
    }

    /// Whether an action speaks under the nickname of the client it runs
    /// for.
    pub open spec fn needs_nickname(self) -> bool {
        match self {
            ActionView::SendWelcomeSequence => true,
            ActionView::Motd => true,
            ActionView::Join { channels } => true,
            ActionView::JoinInform { channel } => true,
            ActionView::PrivateMessage { message, users, channels } => true,
            ActionView::PrivateMessageUser { message, from_nickname } => true,
            _ => false,
        }
    }

    /// How many further dispatches one dispatch of the action can nest.
    pub open spec fn depth(self) -> nat {
        match self {
            ActionView::SetUserAndRealName { username, realname } => 2,
            ActionView::SendWelcomeSequence => 1,
            ActionView::Join { channels } => 1,
            ActionView::PrivateMessage { message, users, channels } => 1,
            _ => 0,
        }
    }
}

/// When an action can be dispatched for a client: the state is well
/// formed, the client is in the user table, the action is well formed, and
/// the client has a nickname if the action speaks under it.
pub open spec fn dispatch_ok(state: ServerView, client_id: u64, action: ActionView) -> bool {
    &&& state.wf()
    &&& state.has_user(client_id)
    &&& action.wf()
    &&& action.needs_nickname() ==> state.user(client_id).nickname is Some
}

/// The effect of dispatching an action for a client: the state afterwards
/// and what is sent, in order.
pub open spec fn dispatch_spec(state: ServerView, client_id: u64, action: ActionView) -> (
    ServerView,
    Seq<OutboundView>,
) {
    let user = state.user(client_id);
    let own = user.nickname->0;
    match action {
        ActionView::Error { code } => (state, seq![line_to(client_id, error_line(state, user, code))]),
        ActionView::Pong { challenge } => (state, seq![line_to(client_id, pong_line(challenge))]),
        ActionView::SetNick { nickname } => set_nick_spec(state, client_id, nickname),
        ActionView::ChangeNick { prev_nickname, nickname } => set_nick_spec(
            state,
            client_id,
            nickname,
        ),
        ActionView::SetUserAndRealName { username, realname } => {
            let after = state.with_user(
                client_id,
                UserView { username: Some(username), realname: Some(realname), ..user },
            );
            match user.nickname {
                Some(nickname) => (
                    after,
                    lines_to(client_id, welcome_lines(after, nickname) + motd_lines(after, nickname)),
                ),
                None => (after, Seq::empty()),
            }
        },
        ActionView::SendWelcomeSequence => (
            state,
            lines_to(client_id, welcome_lines(state, own) + motd_lines(state, own)),
        ),
        ActionView::Motd => (state, lines_to(client_id, motd_lines(state, own))),
        ActionView::Quit { reason } => (
            state.without_client(client_id),
            seq![OutboundView::Close { client_id }],
        ),
        ActionView::Join { channels } => join_all_spec(state, client_id, channels),
        ActionView::JoinInform { channel } => (
            state,
            seq![line_to(client_id, join_line(own, channel))],
        ),
        ActionView::PrivateMessage { message, users, channels } => (
            state,
            user_deliveries(state, own, message, users) + channel_deliveries(
                state,
                client_id,
                own,
                message,
                channels,
            ),
        ),
        ActionView::PrivateMessageUser { message, from_nickname } => (
            state,
            seq![line_to(client_id, privmsg_line(from_nickname, own, message))],
        ),
        ActionView::PrivateMessageChannel { message, channel, from_nickname } => (
            state,
            seq![line_to(client_id, privmsg_line(from_nickname, channel, message))],
        ),
    }
}

/// The effect of dispatching one action for several clients in turn.
pub open spec fn dispatch_multi_spec(state: ServerView, clients: Seq<u64>, action: ActionView) -> (
    ServerView,
    Seq<OutboundView>,
)
    decreases clients.len(),
{
    if clients.len() == 0 {
        (state, Seq::empty())
    } else {
        let (before, sent) = dispatch_multi_spec(state, clients.drop_last(), action);
        let (after, more) = dispatch_spec(before, clients.last(), action);
        (after, sent + more)
    }
}

/// When an action can be dispatched for several clients in turn: for each
/// of them in the state that the dispatches before it leave.
pub open spec fn dispatch_multi_ok(state: ServerView, clients: Seq<u64>, action: ActionView) -> bool
    decreases clients.len(),
{
    clients.len() == 0 || (dispatch_multi_ok(state, clients.drop_last(), action) && dispatch_ok(
        dispatch_multi_spec(state, clients.drop_last(), action).0,
        clients.last(),
        action,
    ))
}

fn set_nick(query: &mut ServerQuery, outbox: &mut Vec<Outbound>, nickname: &str)
    requires
        old(query).state().wf(),
        old(query).state().has_user(old(query).client_id),
        nickname@.len() > 0,
    ensures
        final(query).state() == set_nick_spec(
            old(query).state(),
            old(query).client_id,
            nickname@,
        ).0,
        outbound_views(final(outbox)@) == outbound_views(old(outbox)@) + set_nick_spec(
            old(query).state(),
            old(query).client_id,
            nickname@,
        ).1,
        final(query).state().wf(),
        final(query).client_id == old(query).client_id,
        *final(final(query).server) == *final(old(query).server),
{
    let ghost state = query.state();
    let ghost before = outbound_views(outbox@);
    let client_id = query.client_id;
    proof {
        lemma_acting_user(state, client_id);
        reveal_strlit("433");
    }
    if query.server.nickname_in_use(client_id, nickname) {
        send_error(&*query, outbox, ERR_NICKNAMEINUSE);
        proof {
            assert(outbound_views(outbox@) =~= before + set_nick_spec(
                state,
                client_id,
                nickname@,
            ).1);
        }
    } else {
        let user = query.user_mut();
        user.nickname = Some(nickname.to_owned());
        proof {
            let changed = UserView { nickname: Some(nickname@), ..state.user(client_id) };
            lemma_with_user_wf(state, client_id, changed);
            assert(outbound_views(outbox@) =~= before + Seq::<OutboundView>::empty());
        }
    }
}

/// A copy of a list of client ids.
fn copy_ids(ids: &[u64]) -> (copy: Vec<u64>)
    ensures
        copy@ == ids@,
{
    let mut copy: Vec<u64> = Vec::new();
    let mut i: usize = 0;
    while i < ids.len()
        invariant
            i <= ids.len(),
            copy@ == ids@.take(i as int),
        decreases ids.len() - i,
    {
        copy.push(ids[i]);
        proof {
            assert(ids@.take(i as int + 1) =~= ids@.take(i as int).push(ids@[i as int]));
        }
        i = i + 1;
    }
    proof {
        assert(ids@.take(i as int) =~= ids@);
    }
    copy
}

/// The ids in a list other than `client_id`, in order.
fn others(ids: &[u64], client_id: u64) -> (rest: Vec<u64>)
    ensures
        rest@ == without(ids@, client_id),
{
    let mut rest: Vec<u64> = Vec::new();
    let mut i: usize = 0;
    proof {
        reveal(Seq::filter);
        assert(without(ids@.take(0), client_id) =~= Seq::<u64>::empty());
    }
    while i < ids.len()
        invariant
            i <= ids.len(),
            rest@ == without(ids@.take(i as int), client_id),
        decreases ids.len() - i,
    {
        proof {
            let next = ids@.take(i as int + 1);
            assert(next.drop_last() =~= ids@.take(i as int));
            lemma_without_step(next, client_id);
        }
        if ids[i] != client_id {
            rest.push(ids[i]);
        }
        i = i + 1;
    }
    proof {
        assert(ids@.take(i as int) =~= ids@);
    }
    rest
}

/// Telling the members of a channel of a JOIN changes nothing in the
/// state and sends each of them its notice.
pub proof fn lemma_join_notices(state: ServerView, members: Seq<u64>, channel: Seq<char>)
    requires
        state.wf(),
        channel.len() > 0,
        forall|k: int| 0 <= k < members.len() ==> state.has_nick(#[trigger] members[k]),
    ensures
        dispatch_multi_ok(state, members, ActionView::JoinInform { channel }),
        dispatch_multi_spec(state, members, ActionView::JoinInform { channel }) == (
            state,
            join_notices(state, members, channel),
        ),
    decreases members.len(),
{
    let action = ActionView::JoinInform { channel };
    if members.len() == 0 {
        assert(join_notices(state, members, channel) =~= Seq::<OutboundView>::empty());
    } else {
        let init = members.drop_last();
        assert forall|k: int| 0 <= k < init.len() implies state.has_nick(#[trigger] init[k]) by {
            assert(init[k] == members[k]);
        }
        lemma_join_notices(state, init, channel);
        assert(state.has_nick(members[members.len() - 1]));
        lemma_has_nick(state, members.last());
        assert(join_notices(state, members, channel) =~= join_notices(state, init, channel)
            + dispatch_spec(state, members.last(), action).1);
    }
}

/// Handing a channel message to each recipient changes nothing in the
/// state and sends each of them one copy.
pub proof fn lemma_channel_copies(
    state: ServerView,
    recipients: Seq<u64>,
    from: Seq<char>,
    channel: Seq<char>,
    message: Seq<char>,
)
    requires
        state.wf(),
        channel.len() > 0,
        from.len() > 0,
        forall|k: int| 0 <= k < recipients.len() ==> state.has_user(#[trigger] recipients[k]),
    ensures
        dispatch_multi_ok(
            state,
            recipients,
            ActionView::PrivateMessageChannel { message, channel, from_nickname: from },
        ),
        dispatch_multi_spec(
            state,
            recipients,
            ActionView::PrivateMessageChannel { message, channel, from_nickname: from },
        ) == (state, channel_copies(recipients, from, channel, message)),
    decreases recipients.len(),
{
    let action = ActionView::PrivateMessageChannel { message, channel, from_nickname: from };
    if recipients.len() == 0 {
        assert(channel_copies(recipients, from, channel, message) =~= Seq::<
            OutboundView,
        >::empty());
    } else {
        let init = recipients.drop_last();
        assert forall|k: int| 0 <= k < init.len() implies state.has_user(#[trigger] init[k]) by {
            assert(init[k] == recipients[k]);
        }
        lemma_channel_copies(state, init, from, channel, message);
        assert(state.has_user(recipients[recipients.len() - 1]));
        assert(channel_copies(recipients, from, channel, message) =~= channel_copies(
            init,
            from,
            channel,
            message,
        ) + dispatch_spec(state, recipients.last(), action).1);
    }
}

/// An action that can be dispatched for a list of clients can be
/// dispatched for each beginning of the list, and then for the next client.
pub proof fn lemma_multi_prefix(state: ServerView, clients: Seq<u64>, action: ActionView, i: int)
    requires
        dispatch_multi_ok(state, clients, action),
        0 <= i < clients.len(),
    ensures
        dispatch_multi_ok(state, clients.take(i), action),
        dispatch_ok(dispatch_multi_spec(state, clients.take(i), action).0, clients[i], action),
    decreases clients.len(),
{
    if i == clients.len() - 1 {
        assert(clients.take(i) =~= clients.drop_last());
    } else {
        lemma_multi_prefix(state, clients.drop_last(), action, i);
        assert(clients.drop_last().take(i) =~= clients.take(i));
    }
}

/// The client ids of a list of borrowed records.
pub open spec fn record_ids(users: Seq<&User>) -> Seq<u64> {
    users.map_values(|user: &User| user.client_id)
}

impl Action {
    /// Dispatches the action for each of `users` in turn, under the
    /// client id of each.
    pub fn _dispatch_multi_by_user_ref(
        &self,
        root_query: &mut ServerQuery,
        users: &[&User],
        outbox: &mut Vec<Outbound>,
    )
        requires
            old(root_query).state().wf(),
            dispatch_multi_ok(old(root_query).state(), record_ids(users@), self@),
        ensures
            final(root_query).state() == dispatch_multi_spec(
                old(root_query).state(),
                record_ids(users@),
                self@,
            ).0,
            outbound_views(final(outbox)@) == outbound_views(old(outbox)@) + dispatch_multi_spec(
                old(root_query).state(),
                record_ids(users@),
                self@,
            ).1,
            final(root_query).state().wf(),
            final(root_query).client_id == old(root_query).client_id,
            *final(final(root_query).server) == *final(old(root_query).server),
        decreases self@.depth(), 3nat,
    {
        let mut clients: Vec<u64> = Vec::new();
        let mut i: usize = 0;
        while i < users.len()
            invariant
                i <= users.len(),
                clients@ == record_ids(users@.take(i as int)),
            decreases users.len() - i,
        {
            clients.push(users[i].client_id);
            proof {
                assert(users@.take(i as int + 1) =~= users@.take(i as int).push(users@[i as int]));
                assert(clients@ =~= record_ids(users@.take(i as int + 1)));
            }
            i = i + 1;
        }
        proof {
            assert(users@.take(i as int) =~= users@);
        }
        self.dispatch_multi_by_client_id(root_query, clients.as_slice(), outbox);
    }

    /// Dispatches the action for another client: a new handle around the
    /// same server, bound to `client`.
    pub fn dispatch_for_client_id(
        &self,
        root_query: &mut ServerQuery,
        client: u64,
        outbox: &mut Vec<Outbound>,
    )
        requires
            dispatch_ok(old(root_query).state(), client, self@),
        ensures
            final(root_query).state() == dispatch_spec(old(root_query).state(), client, self@).0,
            outbound_views(final(outbox)@) == outbound_views(old(outbox)@) + dispatch_spec(
                old(root_query).state(),
                client,
                self@,
            ).1,
            final(root_query).state().wf(),
            final(root_query).client_id == old(root_query).client_id,
            *final(final(root_query).server) == *final(old(root_query).server),
        decreases self@.depth(), 1nat,
    {
        let mut query = ServerQuery::new(root_query.server_mut(), client);
        self.dispatch(&mut query, outbox);
    }

    /// Dispatches the action for each of `clients` in turn.
    pub fn dispatch_multi_by_client_id(
        &self,
        root_query: &mut ServerQuery,
        clients: &[u64],
        outbox: &mut Vec<Outbound>,
    )
        requires
            old(root_query).state().wf(),
            dispatch_multi_ok(old(root_query).state(), clients@, self@),
        ensures
            final(root_query).state() == dispatch_multi_spec(
                old(root_query).state(),
                clients@,
                self@,
            ).0,
            outbound_views(final(outbox)@) == outbound_views(old(outbox)@) + dispatch_multi_spec(
                old(root_query).state(),
                clients@,
                self@,
            ).1,
            final(root_query).state().wf(),
            final(root_query).client_id == old(root_query).client_id,
            *final(final(root_query).server) == *final(old(root_query).server),
        decreases self@.depth(), 2nat,
    {
        let ghost state = root_query.state();
        let ghost before = outbound_views(outbox@);
        let mut i: usize = 0;
        proof {
            assert(before =~= before + dispatch_multi_spec(state, clients@.take(0), self@).1);
        }
        while i < clients.len()
            invariant
                i <= clients.len(),
                dispatch_multi_ok(state, clients@, self@),
                root_query.state() == dispatch_multi_spec(state, clients@.take(i as int), self@).0,
                outbound_views(outbox@) == before + dispatch_multi_spec(
                    state,
                    clients@.take(i as int),
                    self@,
                ).1,
                root_query.state().wf(),
                root_query.client_id == old(root_query).client_id,
                *final(root_query.server) == *final(old(root_query).server),
            decreases clients.len() - i,
        {
            proof {
                lemma_multi_prefix(state, clients@, self@, i as int);
                assert(clients@.take(i as int + 1).drop_last() =~= clients@.take(i as int));
            }
            let ghost current = root_query.state();
            self.dispatch_for_client_id(root_query, clients[i], outbox);
            proof {
                let done = dispatch_multi_spec(state, clients@.take(i as int), self@);
                let step = dispatch_spec(current, clients@[i as int], self@);
                assert(outbound_views(outbox@) =~= before + (done.1 + step.1));
            }
            i = i + 1;
        }
        proof {
            assert(clients@.take(i as int) =~= clients@);
        }
    }

    /// Carries the action out for the client that `query` is bound to:
    /// changes the server state and appends to `outbox` what is to be sent.
    pub fn dispatch(&self, query: &mut ServerQuery, outbox: &mut Vec<Outbound>)
        requires
            dispatch_ok(old(query).state(), old(query).client_id, self@),
        ensures
            final(query).state() == dispatch_spec(
                old(query).state(),
                old(query).client_id,
                self@,
            ).0,
            outbound_views(final(outbox)@) == outbound_views(old(outbox)@) + dispatch_spec(
                old(query).state(),
                old(query).client_id,
                self@,
            ).1,
            final(query).state().wf(),
            final(query).client_id == old(query).client_id,
            *final(final(query).server) == *final(old(query).server),
        decreases self@.depth(), 0nat,
    {
        let ghost state = query.state();
        let ghost before = outbound_views(outbox@);
        let client_id = query.client_id;
        proof {
            lemma_acting_user(state, client_id);
        }
        match self {
            Action::Error { code } => {
                send_error(&*query, outbox, code);
                proof {
                    assert(outbound_views(outbox@) =~= before + dispatch_spec(
                        state,
                        client_id,
                        self@,
                    ).1);
                }
            },
            // Send PING response
            Action::Pong { challenge } => {
                proof {
                    reveal_strlit("PONG");
                }
                let params = match challenge {
                    Some(challenge) => one(challenge.as_str()),
                    None => Vec::new(),
                };
                proof {
                    if challenge is None {
                        assert(params.deep_view() =~= Seq::<Seq<char>>::empty());
                    }
                }
                let text = render(None, "PONG", &params, None);
                send(outbox, client_id, text);
                proof {
                    assert(outbound_views(outbox@) =~= before + dispatch_spec(
                        state,
                        client_id,
                        self@,
                    ).1);
                }
            },
            Action::SetNick { nickname } => {
                set_nick(query, outbox, nickname.as_str());
            },
            Action::ChangeNick { prev_nickname, nickname } => {
                set_nick(query, outbox, nickname.as_str());
            },
            Action::SetUserAndRealName { username, realname } => {
                let user = query.user_mut();
                user.username = Some(username.clone());
                user.realname = Some(realname.clone());
                proof {
                    let changed = UserView {
                        username: Some(username@),
                        realname: Some(realname@),
                        ..state.user(client_id)
                    };
                    lemma_with_user_wf(state, client_id, changed);
                }
                if query.user().nickname.is_some() {
                    Action::SendWelcomeSequence.dispatch(query, outbox);
                } else {
                    proof {
                        assert(outbound_views(outbox@) =~= before + Seq::<OutboundView>::empty());
                    }
                }
            },
            Action::SendWelcomeSequence => {
                send_welcome(&*query, outbox);
                Action::Motd.dispatch(query, outbox);
                proof {
                    let nickname = state.user(client_id).nickname->0;
                    lemma_lines_to_add(
                        client_id,
                        welcome_lines(state, nickname),
                        motd_lines(state, nickname),
                    );
                    assert(outbound_views(outbox@) =~= before + dispatch_spec(
                        state,
                        client_id,
                        self@,
                    ).1);
                }
            },
            Action::Motd => {
                send_motd(&*query, outbox);
            },
            Action::Join { channels } => {
                join_channels(query, outbox, channels);
            },
            Action::JoinInform { channel } => {
                proof {
                    reveal_strlit("JOIN");
                }
                let nickname = query.user_nick_unsafe();
                let text = render(Some(nickname.as_str()), "JOIN", &one(channel.as_str()), None);
                send(outbox, client_id, text);
                proof {
                    assert(outbound_views(outbox@) =~= before + dispatch_spec(
                        state,
                        client_id,
                        self@,
                    ).1);
                }
            },
            Action::PrivateMessage { message, users, channels } => {
                deliver(query, outbox, message, users, channels);
            },
            Action::PrivateMessageUser { message, from_nickname } => {
                proof {
                    reveal_strlit("PRIVMSG");
                }
                let nickname = query.user_nick_unsafe();
                let text = render(
                    Some(from_nickname.as_str()),
                    "PRIVMSG",
                    &one(nickname.as_str()),
                    Some(message.as_str()),
                );
                send(outbox, client_id, text);
                proof {
                    assert(outbound_views(outbox@) =~= before + dispatch_spec(
                        state,
                        client_id,
                        self@,
                    ).1);
                }
            },
            Action::PrivateMessageChannel { message, channel, from_nickname } => {
                proof {
                    reveal_strlit("PRIVMSG");
                }
                let text = render(
                    Some(from_nickname.as_str()),
                    "PRIVMSG",
                    &one(channel.as_str()),
                    Some(message.as_str()),
                );
                send(outbox, client_id, text);
                proof {
                    assert(outbound_views(outbox@) =~= before + dispatch_spec(
                        state,
                        client_id,
                        self@,
                    ).1);
                }
            },
            Action::Quit { reason } => {
                let ghost sent = outbox@;
                let close = Outbound::Close { client_id };
                outbox.push(close);
                query.server.remove_client(client_id);
                proof {
                    assert(outbound_views(sent.push(close)) =~= before + dispatch_spec(
                        state,
                        client_id,
                        self@,
                    ).1);
                }
            },
        }
    }
}

/// Joins the acting client to each channel in turn.
fn join_channels(query: &mut ServerQuery, outbox: &mut Vec<Outbound>, channels: &Vec<ChannelRef>)
    requires
        dispatch_ok(
            old(query).state(),
            old(query).client_id,
            ActionView::Join { channels: channel_ref_views(channels@) },
        ),
    ensures
        final(query).state() == join_all_spec(
            old(query).state(),
            old(query).client_id,
            channel_ref_views(channels@),
        ).0,
        outbound_views(final(outbox)@) == outbound_views(old(outbox)@) + join_all_spec(
            old(query).state(),
            old(query).client_id,
            channel_ref_views(channels@),
        ).1,
        final(query).state().wf(),
        final(query).client_id == old(query).client_id,
        *final(final(query).server) == *final(old(query).server),
    decreases 0nat, 3nat,
{
    let ghost state = query.state();
    let ghost before = outbound_views(outbox@);
    let ghost refs = channel_ref_views(channels@);
    let client_id = query.client_id;
    let nickname = query.user_nick_unsafe();
    proof {
        reveal_strlit("332");
        assert(before =~= before + join_all_spec(state, client_id, refs.take(0)).1);
    }
    let mut i: usize = 0;
    while i < channels.len()
        invariant
            i <= channels.len(),
            refs == channel_ref_views(channels@),
            forall|k: int| 0 <= k < refs.len() ==> is_channel_name((#[trigger] refs[k]).name),
            query.state() == join_all_spec(state, client_id, refs.take(i as int)).0,
            outbound_views(outbox@) == before + join_all_spec(
                state,
                client_id,
                refs.take(i as int),
            ).1,
            query.state().wf(),
            query.state().has_user(client_id),
            query.state().user(client_id).nickname == Some(nickname@),
            query.client_id == client_id,
            client_id == old(query).client_id,
            *final(query.server) == *final(old(query).server),
        decreases channels.len() - i,
    {
        let ghost current = query.state();
        let ghost sent = outbound_views(outbox@);
        let name = channels[i].name.as_str();
        proof {
            assert(refs.take(i as int + 1).drop_last() =~= refs.take(i as int));
            assert(refs[i as int].name == name@);
            lemma_acting_user(current, client_id);
            lemma_with_member_wf(current, name@, client_id);
            current.channel_names().index_of_first_ensures(name@);
            assert(seq![client_id] =~= Seq::<u64>::empty().push(client_id));
        }
        let channel = query.channel_get_or_create(name);
        channel.join_user(client_id);
        let topic = channel.topic().to_owned();
        let ghost joined = query.state();
        proof {
            reveal_strlit("332");
            assert(joined == current.with_member(name@, client_id));
            assert(joined.find_channel(name@)->0.topic == topic@);
        }
        if !topic.as_str().is_empty() {
            let text = render(
                None,
                RPL_TOPIC,
                &two(nickname.as_str(), name),
                Some(topic.as_str()),
            );
            send(outbox, client_id, text);
        }
        let members = match query.channel_find(name) {
            Some(channel) => copy_ids(channel.clients()),
            None => Vec::new(),
        };
        let inform = Action::JoinInform { channel: name.to_owned() };
        proof {
            let found = joined.find_channel(name@)->0;
            joined.channel_names().index_of_first_ensures(name@);
            let at = joined.channel_names().index_of_first(name@)->0;
            assert(joined.channels[at] == found);
            assert forall|k: int| 0 <= k < members@.len() implies joined.has_nick(
                #[trigger] members@[k],
            ) by {
                assert(joined.has_nick(joined.channels[at].clients[k]));
            }
            lemma_join_notices(joined, members@, name@);
        }
        inform.dispatch_multi_by_client_id(query, members.as_slice(), outbox);
        proof {
            let step = join_one_spec(current, client_id, name@);
            let done = join_all_spec(state, client_id, refs.take(i as int));
            assert(outbound_views(outbox@) =~= sent + step.1);
            assert(outbound_views(outbox@) =~= before + (done.1 + step.1));
        }
        i = i + 1;
    }
    proof {
        assert(refs.take(i as int) =~= refs);
    }
}

/// Hands a message to the users and the channels it is addressed to.
fn deliver(
    query: &mut ServerQuery,
    outbox: &mut Vec<Outbound>,
    message: &String,
    users: &Vec<String>,
    channels: &Vec<String>,
)
    requires
        old(query).state().wf(),
        old(query).state().has_user(old(query).client_id),
        old(query).state().user(old(query).client_id).nickname is Some,
    ensures
        final(query).state() == old(query).state(),
        outbound_views(final(outbox)@) == outbound_views(old(outbox)@) + (user_deliveries(
            old(query).state(),
            old(query).state().user(old(query).client_id).nickname->0,
            message@,
            users.deep_view(),
        ) + channel_deliveries(
            old(query).state(),
            old(query).client_id,
            old(query).state().user(old(query).client_id).nickname->0,
            message@,
            channels.deep_view(),
        )),
        final(query).client_id == old(query).client_id,
        *final(final(query).server) == *final(old(query).server),
    decreases 0nat, 3nat,
{
    let ghost state = query.state();
    let ghost before = outbound_views(outbox@);
    let client_id = query.client_id;
    let nickname = query.user_nick_unsafe();
    let ghost from = nickname@;
    let ghost user_targets = users.deep_view();
    let ghost channel_targets = channels.deep_view();
    proof {
        lemma_acting_user(state, client_id);
        assert(before =~= before + user_deliveries(state, from, message@, user_targets.take(0)));
    }
    // Dispatch private message to target clients
    let mut i: usize = 0;
    while i < users.len()
        invariant
            i <= users.len(),
            user_targets == users.deep_view(),
            query.state() == state,
            state.wf(),
            from == nickname@,
            from.len() > 0,
            outbound_views(outbox@) == before + user_deliveries(
                state,
                from,
                message@,
                user_targets.take(i as int),
            ),
            query.client_id == client_id,
            client_id == old(query).client_id,
            *final(query.server) == *final(old(query).server),
        decreases users.len() - i,
    {
        let target = users[i].as_str();
        proof {
            assert(user_targets.take(i as int + 1).drop_last() =~= user_targets.take(i as int));
            assert(user_targets[i as int] == target@);
            state.nicknames().index_of_first_ensures(Some(target@));
        }
        let found = match query.user_find_by_nickname(target) {
            Some(user) => Some(user.client_id),
            None => None,
        };
        match found {
            Some(target_client) => {
                let action = Action::PrivateMessageUser {
                    message: message.clone(),
                    from_nickname: nickname.clone(),
                };
                proof {
                    let at = state.nicknames().index_of_first(Some(target@))->0;
                    assert(state.nicknames()[at] == Some(target@));
                    lemma_user_at(state, at);
                }
                action.dispatch_for_client_id(query, target_client, outbox);
                proof {
                    let done = user_deliveries(state, from, message@, user_targets.take(i as int));
                    assert(outbound_views(outbox@) =~= before + done.push(
                        line_to(target_client, privmsg_line(from, target@, message@)),
                    ));
                }
            },
            None => {},
        }
        i = i + 1;
    }
    proof {
        assert(user_targets.take(i as int) =~= user_targets);
    }
    let ghost middle = outbound_views(outbox@);
    proof {
        assert(middle =~= middle + channel_deliveries(
            state,
            client_id,
            from,
            message@,
            channel_targets.take(0),
        ));
    }
    // Iterate over target channels
    let mut j: usize = 0;
    while j < channels.len()
        invariant
            j <= channels.len(),
            channel_targets == channels.deep_view(),
            query.state() == state,
            state.wf(),
            from == nickname@,
            from.len() > 0,
            outbound_views(outbox@) == middle + channel_deliveries(
                state,
                client_id,
                from,
                message@,
                channel_targets.take(j as int),
            ),
            query.client_id == client_id,
            client_id == old(query).client_id,
            *final(query.server) == *final(old(query).server),
        decreases channels.len() - j,
    {
        let channel_name = channels[j].as_str();
        proof {
            assert(channel_targets.take(j as int + 1).drop_last() =~= channel_targets.take(
                j as int,
            ));
            assert(channel_targets[j as int] == channel_name@);
            state.channel_names().index_of_first_ensures(channel_name@);
        }
        // Collect clients in channel (except sender client)
        let clients = match query.channel_find(channel_name) {
            Some(channel) => Some(others(channel.clients(), client_id)),
            None => None,
        };
        // Dispatch private message to all users of channel
        match clients {
            Some(clients) => {
                let action = Action::PrivateMessageChannel {
                    message: message.clone(),
                    channel: channel_name.to_owned(),
                    from_nickname: nickname.clone(),
                };
                proof {
                    let at = state.channel_names().index_of_first(channel_name@)->0;
                    let channel = state.channels[at];
                    assert(state.channel_names()[at] == channel_name@);
                    assert(channel.wf());
                    assert forall|k: int| 0 <= k < clients@.len() implies state.has_user(
                        #[trigger] clients@[k],
                    ) by {
                        let member = clients@[k];
                        assert(without(channel.clients, client_id).contains(member));
                        lemma_without_contains(channel.clients, client_id, member);
                        let m = choose|m: int|
                            0 <= m < channel.clients.len() && channel.clients[m] == member;
                        assert(state.has_nick(state.channels[at].clients[m]));
                        lemma_has_nick(state, member);
                    }
                    lemma_channel_copies(state, clients@, from, channel_name@, message@);
                }
                action.dispatch_multi_by_client_id(query, clients.as_slice(), outbox);
                proof {
                    let done = channel_deliveries(
                        state,
                        client_id,
                        from,
                        message@,
                        channel_targets.take(j as int),
                    );
                    assert(outbound_views(outbox@) =~= middle + (done + channel_copies(
                        clients@,
                        from,
                        channel_name@,
                        message@,
                    )));
                }
            },
            None => {},
        }
        j = j + 1;
    }
    proof {
        assert(channel_targets.take(j as int) =~= channel_targets);
        assert(outbound_views(outbox@) =~= before + (user_deliveries(
            state,
            from,
            message@,
            user_targets,
        ) + channel_deliveries(state, client_id, from, message@, channel_targets)));
    }
}

} // verus!
