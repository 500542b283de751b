//! Facts that hold of the server whatever its clients send.

use crate::models::ChannelRefView;
use crate::models::UserView;
use crate::models::channel::is_channel_name;
use crate::models::channel::lemma_without_contains;
use crate::models::channel::lemma_without_no_duplicates;
use crate::models::channel::without;
use crate::models::channel::zip_longest_spec;
use crate::numerics::ERR_ALREADYREGISTRED;
use crate::numerics::ERR_NICKNAMEINUSE;
use crate::server::ServerEventView;
use crate::server::ServerView;
use crate::server::action::ActionView;
use crate::server::action::OutboundView;
use crate::server::action::channel_copies;
use crate::server::action::channel_deliveries;
use crate::server::action::dispatch_ok;
use crate::server::action::dispatch_spec;
use crate::server::action::join_all_spec;
use crate::server::action::join_one_spec;
use crate::server::action::user_deliveries;
use crate::server::action_parser::admissible;
use crate::server::action_parser::join_entries;
use crate::server::action_parser::parse_join;
use crate::server::action_parser::parse_spec;
use crate::server::event_spec;
use crate::server::message_spec;
use crate::server::replies::error_line;
use crate::server::replies::lemma_acting_user;
use crate::server::replies::line_to;
use crate::server::replies::privmsg_line;
use crate::server::state_lemmas::lemma_connected_wf;
use crate::server::state_lemmas::lemma_has_nick;
use crate::server::state_lemmas::lemma_members_exist;
use crate::server::state_lemmas::lemma_user_position;
use crate::server::state_lemmas::lemma_with_member_wf;
use crate::server::state_lemmas::lemma_with_user_wf;
use crate::server::state_lemmas::lemma_without_client_wf;
use crate::text::split_spec;
use crate::text::trim_end_spec;
use crate::wire::ParsedMessageView;
use crate::wire::tokenize_spec;
use vstd::prelude::*;

verus! {

/// What the parser finds for a client can be dispatched for that client.
pub proof fn lemma_parse_admissible(message: ParsedMessageView, user: UserView)
    ensures
        parse_spec(message, user) matches Some(action) ==> admissible(action, user),
{
    reveal_strlit("403");
    reveal_strlit("431");
    reveal_strlit("433");
    reveal_strlit("451");
    reveal_strlit("461");
    reveal_strlit("462");
    if message.command == "JOIN"@ && parse_spec(message, user) == Some(parse_join(message, user)) {
        if let ActionView::Join { channels } = parse_join(message, user) {
            let names = split_spec(message.params[0], ',');
            let keys = if message.params.len() > 1 {
                split_spec(message.params[1], ',')
            } else {
                Seq::empty()
            };
            let pairs = zip_longest_spec(names, keys);
            assert(channels == join_entries(pairs));
            assert forall|i: int| 0 <= i < channels.len() implies is_channel_name(
                (#[trigger] channels[i]).name,
            ) by {
                assert(channels[i].name == pairs[i].0->0);
            }
        }
    }
}

/// Joining channels leaves the state well formed and the user table as it
/// was.
pub proof fn lemma_join_all_wf(state: ServerView, client_id: u64, channels: Seq<ChannelRefView>)
    requires
        state.wf(),
        state.has_nick(client_id),
        forall|i: int| 0 <= i < channels.len() ==> is_channel_name((#[trigger] channels[i]).name),
    ensures
        join_all_spec(state, client_id, channels).0.wf(),
        join_all_spec(state, client_id, channels).0.users == state.users,
    decreases channels.len(),
{
    if channels.len() > 0 {
        let init = channels.drop_last();
        assert forall|i: int| 0 <= i < init.len() implies is_channel_name(
            (#[trigger] init[i]).name,
        ) by {
            assert(init[i] == channels[i]);
        }
        lemma_join_all_wf(state, client_id, init);
        let before = join_all_spec(state, client_id, init).0;
        let j = choose|j: int|
            0 <= j < state.users.len() && (#[trigger] state.users[j]).client_id == client_id
                && state.users[j].nickname is Some;
        assert(before.users[j].client_id == client_id);
        assert(before.has_nick(client_id));
        assert(is_channel_name(channels[channels.len() - 1].name));
        lemma_with_member_wf(before, channels.last().name, client_id);
    }
}

/// Dispatching an action that can be dispatched leaves the state well
/// formed.
pub proof fn lemma_dispatch_keeps_wf(state: ServerView, client_id: u64, action: ActionView)
    requires
        dispatch_ok(state, client_id, action),
    ensures
        dispatch_spec(state, client_id, action).0.wf(),
{
    let user = state.user(client_id);
    lemma_acting_user(state, client_id);
    match action {
        ActionView::SetNick { nickname } => {
            if !state.nickname_taken(client_id, nickname) {
                lemma_with_user_wf(state, client_id, UserView { nickname: Some(nickname), ..user });
            }
        },
        ActionView::ChangeNick { prev_nickname, nickname } => {
            if !state.nickname_taken(client_id, nickname) {
                lemma_with_user_wf(state, client_id, UserView { nickname: Some(nickname), ..user });
            }
        },
        ActionView::SetUserAndRealName { username, realname } => {
            lemma_with_user_wf(
                state,
                client_id,
                UserView { username: Some(username), realname: Some(realname), ..user },
            );
        },
        ActionView::Quit { reason } => {
            lemma_without_client_wf(state, client_id);
        },
        ActionView::Join { channels } => {
            lemma_join_all_wf(state, client_id, channels);
        },
        _ => {},
    }
}

/// Whatever event the loop handles in a well-formed state, the state is
/// well formed afterwards; in particular every client that is then a member
/// of a channel is in the user table.
pub proof fn lemma_event_keeps_members_known(state: ServerView, event: ServerEventView)
    requires
        state.wf(),
    ensures
        event_spec(state, event).0.wf(),
        event_spec(state, event).0.members_exist(),
{
    match event {
        ServerEventView::ClientConnected { client_id, host } => {
            lemma_connected_wf(state, client_id, host);
        },
        ServerEventView::ClientDisconnected { client_id } => {
            lemma_without_client_wf(state, client_id);
        },
        ServerEventView::IrcCommand { client_id, message } => {
            if state.has_user(client_id) {
                match tokenize_spec(trim_end_spec(message)) {
                    Some(parsed) => {
                        lemma_parse_admissible(parsed, state.user(client_id));
                        match parse_spec(parsed, state.user(client_id)) {
                            Some(action) => {
                                lemma_dispatch_keeps_wf(state, client_id, action);
                            },
                            None => {},
                        }
                    },
                    None => {},
                }
            }
        },
    }
    lemma_members_exist(event_spec(state, event).0);
}

/// Whether something sent is a line for `client_id`.
pub open spec fn is_line_for(outbound: OutboundView, client_id: u64) -> bool {
    outbound matches OutboundView::Line { client_id: to, line } && to == client_id
}

/// How many lines of `sent` are for `client_id`.
pub open spec fn deliveries_to(sent: Seq<OutboundView>, client_id: u64) -> nat
    decreases sent.len(),
{
    if sent.len() == 0 {
        0
    } else {
        deliveries_to(sent.drop_last(), client_id) + if is_line_for(sent.last(), client_id) {
            1nat
        } else {
            0nat
        }
    }
}

/// How often `client_id` occurs in `clients`.
pub open spec fn occurrences(clients: Seq<u64>, client_id: u64) -> nat
    decreases clients.len(),
{
    if clients.len() == 0 {
        0
    } else {
        occurrences(clients.drop_last(), client_id) + if clients.last() == client_id {
            1nat
        } else {
            0nat
        }
    }
}

/// A client that is not in a list occurs there no times; one that is in a
/// list without repetitions occurs there once.
pub proof fn lemma_occurrences(clients: Seq<u64>, client_id: u64)
    requires
        clients.no_duplicates(),
    ensures
        occurrences(clients, client_id) == if clients.contains(client_id) {
            1nat
        } else {
            0nat
        },
    decreases clients.len(),
{
    if clients.len() > 0 {
        let init = clients.drop_last();
        lemma_occurrences(init, client_id);
        if init.contains(client_id) {
            let k = choose|k: int| 0 <= k < init.len() && init[k] == client_id;
            assert(clients[k] == client_id);
            assert(clients[k] != clients[clients.len() - 1]);
        } else if clients.last() == client_id {
            assert(clients[clients.len() - 1] == client_id);
        } else if clients.contains(client_id) {
            let k = choose|k: int| 0 <= k < clients.len() && clients[k] == client_id;
            assert(init[k] == client_id);
        }
    }
}

/// The copies of a channel message hold as many lines for a client as the
/// client occurs among the recipients.
pub proof fn lemma_copies_count(
    recipients: Seq<u64>,
    from: Seq<char>,
    channel: Seq<char>,
    message: Seq<char>,
    client_id: u64,
)
    ensures
        deliveries_to(channel_copies(recipients, from, channel, message), client_id)
            == occurrences(recipients, client_id),
    decreases recipients.len(),
{
    let copies = channel_copies(recipients, from, channel, message);
    if recipients.len() > 0 {
        lemma_copies_count(recipients.drop_last(), from, channel, message, client_id);
        assert(copies.drop_last() =~= channel_copies(
            recipients.drop_last(),
            from,
            channel,
            message,
        ));
        assert(copies.last() == line_to(recipients.last(), privmsg_line(from, channel, message)));
    }
}

/// Of two clients that are members of one channel, a message that the
/// first sends to the channel is delivered exactly once to the second and
/// not at all to the first; and what is delivered is the message, under
/// the sender's nickname.
pub proof fn lemma_channel_message_delivery(
    state: ServerView,
    sender: u64,
    other: u64,
    name: Seq<char>,
    message: Seq<char>,
)
    requires
        state.wf(),
        sender != other,
        state.find_channel(name) matches Some(channel) && channel.clients.contains(sender)
            && channel.clients.contains(other),
    ensures
        ({
            let action = ActionView::PrivateMessage {
                message,
                users: Seq::empty(),
                channels: seq![name],
            };
            let sent = dispatch_spec(state, sender, action).1;
            let from = state.user(sender).nickname->0;
            &&& dispatch_ok(state, sender, action)
            &&& dispatch_spec(state, sender, action).0 == state
            &&& deliveries_to(sent, other) == 1
            &&& deliveries_to(sent, sender) == 0
            &&& forall|i: int|
                0 <= i < sent.len() && is_line_for(#[trigger] sent[i], other) ==> sent[i]
                    == line_to(other, privmsg_line(from, name, message))
        }),
{
    let action = ActionView::PrivateMessage { message, users: Seq::empty(), channels: seq![name] };
    let sent = dispatch_spec(state, sender, action).1;
    let from = state.user(sender).nickname->0;
    let channel = state.find_channel(name)->0;
    let recipients = without(channel.clients, sender);
    let copies = channel_copies(recipients, from, name, message);
    let targets = seq![name];
    assert(targets.drop_last() =~= Seq::<Seq<char>>::empty());
    assert(targets.last() == name);
    assert(channel_deliveries(state, sender, from, message, targets.drop_last()) =~= Seq::<
        OutboundView,
    >::empty());
    assert(channel_deliveries(state, sender, from, message, targets) =~= copies);
    assert(user_deliveries(state, from, message, Seq::empty()) =~= Seq::<OutboundView>::empty());
    assert(sent =~= copies);
    state.channel_names().index_of_first_ensures(name);
    let at = state.channel_names().index_of_first(name)->0;
    assert(state.channels[at].wf());
    let k = choose|k: int| 0 <= k < channel.clients.len() && channel.clients[k] == sender;
    assert(state.has_nick(state.channels[at].clients[k]));
    lemma_has_nick(state, sender);
    lemma_without_no_duplicates(channel.clients, sender);
    lemma_without_contains(channel.clients, sender, other);
    lemma_without_contains(channel.clients, sender, sender);
    lemma_occurrences(recipients, other);
    lemma_occurrences(recipients, sender);
    lemma_copies_count(recipients, from, name, message, other);
    lemma_copies_count(recipients, from, name, message, sender);
}

/// A NICK that names the nickname that the sender has already is
/// answered with `ERR_NICKNAMEINUSE` and changes nothing in the state.
pub proof fn lemma_same_nick_refused(state: ServerView, client_id: u64, message: ParsedMessageView)
    requires
        state.wf(),
        state.has_user(client_id),
        message.command == "NICK"@,
        message.params.len() > 0,
        state.user(client_id).nickname == Some(message.params[0]),
    ensures
        parse_spec(message, state.user(client_id)) == Some(
            ActionView::Error { code: ERR_NICKNAMEINUSE@ },
        ),
        message_spec(state, client_id, message) == (
            state,
            seq![
                line_to(client_id, error_line(state, state.user(client_id), ERR_NICKNAMEINUSE@)),
            ],
        ),
{
    reveal_strlit("NICK");
    reveal_strlit("PING");
    assert("NICK"@[0] == 'N' && "PING"@[0] == 'P');
    let at = lemma_user_position(state, client_id);
    assert(state.users[at].wf());
}

/// A USER with its three parameters and a real name, from a client that
/// has given USER before, is answered with `ERR_ALREADYREGISTRED` and
/// changes nothing in the state.
pub proof fn lemma_second_user_refused(
    state: ServerView,
    client_id: u64,
    message: ParsedMessageView,
)
    requires
        state.wf(),
        state.has_user(client_id),
        state.user(client_id).username is Some,
        message.command == "USER"@,
        message.params.len() >= 3,
        message.params.len() > 3 || message.trailing is Some,
    ensures
        parse_spec(message, state.user(client_id)) == Some(
            ActionView::Error { code: ERR_ALREADYREGISTRED@ },
        ),
        message_spec(state, client_id, message) == (
            state,
            seq![
                line_to(
                    client_id,
                    error_line(state, state.user(client_id), ERR_ALREADYREGISTRED@),
                ),
            ],
        ),
{
    reveal_strlit("USER");
    reveal_strlit("NICK");
    reveal_strlit("PING");
    assert("USER"@[0] == 'U' && "NICK"@[0] == 'N' && "PING"@[0] == 'P');
}

/// A PING is answered with a PONG, and with nothing else: without a
/// parameter where the PING has none, with the first parameter of the PING
/// where it has one that is not empty. The state stays as it is.
pub proof fn lemma_ping_pong(state: ServerView, client_id: u64, message: ParsedMessageView)
    requires
        state.has_user(client_id),
        message.command == "PING"@,
        message.params.len() > 0 ==> message.params[0].len() > 0,
    ensures
        message_spec(state, client_id, message) == (
            state,
            seq![
                line_to(
                    client_id,
                    if message.params.len() == 0 {
                        "PONG"@
                    } else {
                        "PONG"@ + seq![' '] + message.params[0]
                    },
                ),
            ],
        ),
{
    let params = if message.params.len() == 0 {
        Seq::<Seq<char>>::empty()
    } else {
        seq![message.params[0]]
    };
    if message.params.len() > 0 {
        assert(params.drop_last() =~= Seq::<Seq<char>>::empty());
        assert(crate::wire::params_text(params.drop_last()) =~= Seq::<char>::empty());
        assert(params.last() == message.params[0]);
        assert(crate::wire::params_text(params) =~= seq![' '] + message.params[0]);
    }
    assert(crate::wire::line_spec(None, "PONG"@, params, None) =~= if message.params.len() == 0 {
        "PONG"@
    } else {
        "PONG"@ + seq![' '] + message.params[0]
    });
}

/// The replies to a completed registration come in one run, all of them
/// for the client that registered: the five replies of the welcome and
/// the three of the message of the day, with nothing for another client
/// in between.
pub proof fn lemma_welcome_in_one_run(
    state: ServerView,
    client_id: u64,
    username: Seq<char>,
    realname: Seq<char>,
)
    requires
        state.has_user(client_id),
        state.user(client_id).nickname is Some,
    ensures
        ({
            let sent = dispatch_spec(
                state,
                client_id,
                ActionView::SetUserAndRealName { username, realname },
            ).1;
            &&& sent.len() == 8
            &&& forall|i: int| 0 <= i < sent.len() ==> is_line_for(#[trigger] sent[i], client_id)
            &&& deliveries_to(sent, client_id) == 8
        }),
{
    let sent = dispatch_spec(
        state,
        client_id,
        ActionView::SetUserAndRealName { username, realname },
    ).1;
    lemma_all_for_one(sent, client_id);
}

/// The three replies of the message of the day come in one run, all of
/// them for the client that asked.
pub proof fn lemma_motd_in_one_run(state: ServerView, client_id: u64)
    ensures
        ({
            let sent = dispatch_spec(state, client_id, ActionView::Motd).1;
            &&& sent.len() == 3
            &&& forall|i: int| 0 <= i < sent.len() ==> is_line_for(#[trigger] sent[i], client_id)
        }),
{
}

/// The JOIN notices for a channel come in one run behind the topic, if the
/// channel has one: one notice for each member, in join order, and nothing
/// in between.
pub proof fn lemma_join_notices_in_one_run(state: ServerView, client_id: u64, name: Seq<char>)
    ensures
        ({
            let (after, sent) = join_one_spec(state, client_id, name);
            let channel = after.find_channel(name)->0;
            let lead: int = if channel.topic.len() > 0 {
                1
            } else {
                0
            };
            &&& sent.len() == lead + channel.clients.len()
            &&& forall|k: int|
                0 <= k < channel.clients.len() ==> is_line_for(
                    #[trigger] sent[lead + k],
                    channel.clients[k],
                )
            &&& lead == 1 ==> is_line_for(sent[0], client_id)
        }),
{
}

/// Where every line is for one client, that client gets them all.
pub proof fn lemma_all_for_one(sent: Seq<OutboundView>, client_id: u64)
    requires
        forall|i: int| 0 <= i < sent.len() ==> is_line_for(#[trigger] sent[i], client_id),
    ensures
        deliveries_to(sent, client_id) == sent.len(),
    decreases sent.len(),
{
    if sent.len() > 0 {
        assert forall|i: int| 0 <= i < sent.drop_last().len() implies is_line_for(
            #[trigger] sent.drop_last()[i],
            client_id,
        ) by {
            assert(sent.drop_last()[i] == sent[i]);
        }
        lemma_all_for_one(sent.drop_last(), client_id);
        assert(is_line_for(sent[sent.len() - 1], client_id));
    }
}

} // verus!
