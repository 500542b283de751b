//! From a tokenised message to the action that it asks for.

use crate::models::channel::check_channel_name;
use crate::models::channel::is_channel_name;
use crate::models::channel::zip_longest;
use crate::models::channel::zip_longest_spec;
use crate::models::ChannelRef;
use crate::models::ChannelRefView;
use crate::models::UserView;
use crate::numerics::ERR_ALREADYREGISTRED;
use crate::numerics::ERR_NEEDMOREPARAMS;
use crate::numerics::ERR_NICKNAMEINUSE;
use crate::numerics::ERR_NONICKNAMEGIVEN;
use crate::numerics::ERR_NOSUCHCHANNEL;
use crate::numerics::ERR_NOTREGISTERED;
use crate::server::action::channel_ref_views;
use crate::server::action::Action;
use crate::server::action::ActionView;
use crate::server::server_query::ServerQuery;
use crate::text::concat2;
use crate::text::split;
use crate::text::split_spec;
use crate::text::str_eq;
use crate::wire::ParsedMessage;
use crate::wire::ParsedMessageView;
use vstd::prelude::*;
use vstd::string::*;

verus! {

pub struct ActionParser;

/// The targets of a PRIVMSG that are channel names, in order.
pub open spec fn channel_targets(targets: Seq<Seq<char>>) -> Seq<Seq<char>> {
    targets.filter(|target: Seq<char>| is_channel_name(target))
}

/// The targets of a PRIVMSG that are not channel names, in order: they
/// are taken for nicknames.
pub open spec fn user_targets(targets: Seq<Seq<char>>) -> Seq<Seq<char>> {
    targets.filter(|target: Seq<char>| !is_channel_name(target))
}

/// How the two lists of targets grow with the last target.
pub proof fn lemma_targets_step(targets: Seq<Seq<char>>)
    requires
        targets.len() > 0,
    ensures
        channel_targets(targets) == if is_channel_name(targets.last()) {
            channel_targets(targets.drop_last()).push(targets.last())
        } else {
            channel_targets(targets.drop_last())
        },
        user_targets(targets) == if is_channel_name(targets.last()) {
            user_targets(targets.drop_last())
        } else {
            user_targets(targets.drop_last()).push(targets.last())
        },
{
    reveal(Seq::filter);
}

/// PING: the answer carries the first parameter, if there is one that is
/// not empty.
pub open spec fn parse_ping(message: ParsedMessageView) -> ActionView {
    ActionView::Pong {
        challenge: if message.params.len() > 0 && message.params[0].len() > 0 {
            Some(message.params[0])
        } else {
            None
        },
    }
}

/// NICK: without a nickname `ERR_NONICKNAMEGIVEN`; the first nickname of
/// a client is set; the nickname that the client has already is refused
/// with `ERR_NICKNAMEINUSE`; any other is a change.
pub open spec fn parse_nick(message: ParsedMessageView, user: UserView) -> ActionView {
    if message.params.len() == 0 || message.params[0].len() == 0 {
        ActionView::Error { code: ERR_NONICKNAMEGIVEN@ }
    } else {
        match user.nickname {
            None => ActionView::SetNick { nickname: message.params[0] },
            Some(current) => if current == message.params[0] {
                ActionView::Error { code: ERR_NICKNAMEINUSE@ }
            } else {
                ActionView::ChangeNick { prev_nickname: current, nickname: message.params[0] }
            },
        }
    }
}

/// USER: three parameters and a real name (a fourth parameter, else the
/// trailing one) are needed, else `ERR_NEEDMOREPARAMS`; a client that has
/// a user name already gets `ERR_ALREADYREGISTRED`; else the user name,
/// behind a tilde, and the real name are set.
pub open spec fn parse_user(message: ParsedMessageView, user: UserView) -> ActionView {
    let realname = if message.params.len() > 3 {
        Some(message.params[3])
    } else {
        message.trailing
    };
    if message.params.len() < 3 || realname is None {
        ActionView::Error { code: ERR_NEEDMOREPARAMS@ }
    } else if user.username is Some {
        ActionView::Error { code: ERR_ALREADYREGISTRED@ }
    } else {
        ActionView::SetUserAndRealName {
            username: "~"@ + message.params[0],
            realname: realname->0,
        }
    }
}

/// The entries of a JOIN: the pairs of the zipped lists of names and keys.
pub open spec fn join_entries(pairs: Seq<(Option<Seq<char>>, Option<Seq<char>>)>) -> Seq<
    ChannelRefView,
> {
    pairs.map_values(
        |pair: (Option<Seq<char>>, Option<Seq<char>>)|
            ChannelRefView { name: pair.0->0, key: pair.1 },
    )
}

/// What the zipped lists of a JOIN ask for: `ERR_NEEDMOREPARAMS` where a
/// key has no channel name beside it, `ERR_NOSUCHCHANNEL` where a name is
/// not a channel name, else the JOIN of the entries.
pub open spec fn join_of_pairs(pairs: Seq<(Option<Seq<char>>, Option<Seq<char>>)>) -> ActionView {
    if exists|i: int| 0 <= i < pairs.len() && (#[trigger] pairs[i]).0 is None {
        ActionView::Error { code: ERR_NEEDMOREPARAMS@ }
    } else if exists|i: int| 0 <= i < pairs.len() && !is_channel_name((#[trigger] pairs[i]).0->0) {
        ActionView::Error { code: ERR_NOSUCHCHANNEL@ }
    } else {
        ActionView::Join { channels: join_entries(pairs) }
    }
}

/// JOIN: a client that is not registered gets `ERR_NOTREGISTERED`. The
/// first parameter lists channel names and the second, if there is one,
/// keys, both separated by commas. Without a first parameter, or with a key
/// that has no channel name beside it, `ERR_NEEDMOREPARAMS`; with a name
/// that is not a channel name, `ERR_NOSUCHCHANNEL`.
pub open spec fn parse_join(message: ParsedMessageView, user: UserView) -> ActionView {
    if !user.registered() {
        ActionView::Error { code: ERR_NOTREGISTERED@ }
    } else if message.params.len() == 0 {
        ActionView::Error { code: ERR_NEEDMOREPARAMS@ }
    } else {
        let names = split_spec(message.params[0], ',');
        let keys = if message.params.len() > 1 {
            split_spec(message.params[1], ',')
        } else {
            Seq::empty()
        };
        join_of_pairs(zip_longest_spec(names, keys))
    }
}

/// PRIVMSG: a client that is not registered gets `ERR_NOTREGISTERED`. The
/// first parameter lists the targets, separated by commas; the text is the
/// second parameter, else the trailing one. Without targets or text,
/// `ERR_NEEDMOREPARAMS`.
pub open spec fn parse_privmsg(message: ParsedMessageView, user: UserView) -> ActionView {
    let text = if message.params.len() > 1 {
        Some(message.params[1])
    } else {
        message.trailing
    };
    if !user.registered() {
        ActionView::Error { code: ERR_NOTREGISTERED@ }
    } else if message.params.len() == 0 || text is None {
        ActionView::Error { code: ERR_NEEDMOREPARAMS@ }
    } else {
        let targets = split_spec(message.params[0], ',');
        ActionView::PrivateMessage {
            message: text->0,
            users: user_targets(targets),
            channels: channel_targets(targets),
        }
    }
}

/// QUIT: the reason is the first parameter, else the trailing one.
pub open spec fn parse_quit(message: ParsedMessageView) -> ActionView {
    ActionView::Quit {
        reason: if message.params.len() > 0 {
            Some(message.params[0])
        } else {
            message.trailing
        },
    }
}

/// The action that a message of a client asks for; none for a command
/// that the server does not know.
pub open spec fn parse_spec(message: ParsedMessageView, user: UserView) -> Option<ActionView> {
    if message.command == "PING"@ {
        Some(parse_ping(message))
    } else if message.command == "NICK"@ {
        Some(parse_nick(message, user))
    } else if message.command == "USER"@ {
        Some(parse_user(message, user))
    } else if message.command == "MOTD"@ {
        Some(
            if user.registered() {
                ActionView::Motd
            } else {
                ActionView::Error { code: ERR_NOTREGISTERED@ }
            },
        )
    } else if message.command == "JOIN"@ {
        Some(parse_join(message, user))
    } else if message.command == "PRIVMSG"@ {
        Some(parse_privmsg(message, user))
    } else if message.command == "QUIT"@ {
        Some(parse_quit(message))
    } else {
        None
    }
}

/// What the parser yields can be dispatched for the client whose message
/// it was, in any well-formed state.
pub open spec fn admissible(action: ActionView, user: UserView) -> bool {
    &&& action.wf()
    &&& action.needs_nickname() ==> user.nickname is Some
}

fn parse_ping_command(message: &ParsedMessage) -> (action: Action)
    ensures
        action@ == parse_ping(message@),
        action@.wf(),
{
    if message.params.len() > 0 && !message.params[0].as_str().is_empty() {
        Action::Pong { challenge: Some(message.params[0].clone()) }
    } else {
        Action::Pong { challenge: None }
    }
}

fn parse_nick_command(message: &ParsedMessage, query: &ServerQuery) -> (action: Action)
    requires
        query.state().has_user(query.client_id),
    ensures
        action@ == parse_nick(message@, query.state().user(query.client_id)),
        action@.wf(),
{
    proof {
        reveal_strlit("431");
        reveal_strlit("433");
    }
    // Validate params
    if message.params.len() == 0 || message.params[0].as_str().is_empty() {
        return Action::Error { code: ERR_NONICKNAMEGIVEN };
    }
    let nickname = &message.params[0];
    // Check if user already has a nickname
    match &query.user().nickname {
        Some(old_nickname) => {
            // Check if nickname collides with current one
            if str_eq(old_nickname.as_str(), nickname.as_str()) {
                return Action::Error { code: ERR_NICKNAMEINUSE };
            }
            // Dispatch nick change
            Action::ChangeNick { prev_nickname: old_nickname.clone(), nickname: nickname.clone() }
        },
        None => {
            // Dispatch initial nick change
            Action::SetNick { nickname: nickname.clone() }
        },
    }
}

fn parse_user_command(message: &ParsedMessage, query: &ServerQuery) -> (action: Action)
    requires
        query.state().has_user(query.client_id),
    ensures
        action@ == parse_user(message@, query.state().user(query.client_id)),
        action@.wf(),
{
    proof {
        reveal_strlit("461");
        reveal_strlit("462");
    }
    // Validate params
    if message.params.len() < 3 {
        return Action::Error { code: ERR_NEEDMOREPARAMS };
    }
    let username = &message.params[0];
    let realname = if message.params.len() > 3 {
        message.params[3].clone()
    } else {
        match &message.trailing {
            Some(realname) => realname.clone(),
            None => {
                return Action::Error { code: ERR_NEEDMOREPARAMS };
            },
        }
    };
    // Check if user is already registered
    if query.user().username.is_some() {
        return Action::Error { code: ERR_ALREADYREGISTRED };
    }
    // Dispatch registration
    Action::SetUserAndRealName { username: concat2("~", username.as_str()), realname }
}

fn parse_join_command(message: &ParsedMessage, query: &ServerQuery) -> (action: Action)
    requires
        query.state().has_user(query.client_id),
    ensures
        action@ == parse_join(message@, query.state().user(query.client_id)),
        admissible(action@, query.state().user(query.client_id)),
{
    proof {
        reveal_strlit("403");
        reveal_strlit("451");
        reveal_strlit("461");
    }
    if !query.user().is_registered() {
        return Action::Error { code: ERR_NOTREGISTERED };
    }
    if message.params.len() == 0 {
        return Action::Error { code: ERR_NEEDMOREPARAMS };
    }
    let names = split(message.params[0].as_str(), ',');
    let keys = if message.params.len() > 1 {
        split(message.params[1].as_str(), ',')
    } else {
        Vec::new()
    };
    proof {
        if message.params.len() <= 1 {
            assert(keys.deep_view() =~= Seq::<Seq<char>>::empty());
        }
    }
    let pairs = zip_longest(&names, &keys);
    let ghost entries = pairs.deep_view();
    let ghost user = query.state().user(query.client_id);
    proof {
        assert(message@.params[0] == message.params[0]@);
        if message.params.len() > 1 {
            assert(message@.params[1] == message.params[1]@);
        }
        assert(message@.params.len() == message.params.len());
        assert(entries == zip_longest_spec(names.deep_view(), keys.deep_view()));
    }
    let mut channels: Vec<ChannelRef> = Vec::new();
    let mut i: usize = 0;
    while i < pairs.len()
        invariant
            i <= pairs.len(),
            entries == pairs.deep_view(),
            user == query.state().user(query.client_id),
            user.registered(),
            parse_join(message@, user) == join_of_pairs(entries),
            forall|k: int| 0 <= k < i ==> (#[trigger] entries[k]).0 is Some,
            channel_ref_views(channels@) == join_entries(entries.take(i as int)),
        decreases pairs.len() - i,
    {
        let ghost before = channels@;
        let name = match &pairs[i].0 {
            Some(name) => name.as_str(),
            None => {
                proof {
                    reveal_strlit("461");
                    assert(entries[i as int].0 is None);
                }
                return Action::Error { code: ERR_NEEDMOREPARAMS };
            },
        };
        let key = match &pairs[i].1 {
            Some(key) => Some(key.as_str()),
            None => None,
        };
        match ChannelRef::from_pair(Some(name), key) {
            Some(channel) => {
                channels.push(channel);
                proof {
                    assert(entries.take(i as int + 1) =~= entries.take(i as int).push(
                        entries[i as int],
                    ));
                    assert(channel_ref_views(before.push(channel)) =~= channel_ref_views(
                        before,
                    ).push(channel@));
                    assert(join_entries(entries.take(i as int + 1)) =~= join_entries(
                        entries.take(i as int),
                    ).push(channel@));
                }
            },
            None => {},
        }
        i = i + 1;
    }
    proof {
        assert(entries.take(i as int) =~= entries);
    }
    let mut j: usize = 0;
    while j < channels.len()
        invariant
            j <= channels.len(),
            channels.len() == entries.len(),
            user == query.state().user(query.client_id),
            user.registered(),
            parse_join(message@, user) == join_of_pairs(entries),
            channel_ref_views(channels@) == join_entries(entries),
            forall|k: int| 0 <= k < entries.len() ==> (#[trigger] entries[k]).0 is Some,
            forall|k: int| 0 <= k < j ==> is_channel_name((#[trigger] entries[k]).0->0),
        decreases channels.len() - j,
    {
        proof {
            assert(channel_ref_views(channels@)[j as int] == channels@[j as int]@);
            assert(join_entries(entries)[j as int].name == entries[j as int].0->0);
        }
        if !check_channel_name(channels[j].name.as_str()) {
            proof {
                reveal_strlit("403");
                assert(!is_channel_name(entries[j as int].0->0));
            }
            return Action::Error { code: ERR_NOSUCHCHANNEL };
        }
        j = j + 1;
    }
    proof {
        let views = channel_ref_views(channels@);
        assert forall|k: int| 0 <= k < views.len() implies is_channel_name(
            (#[trigger] views[k]).name,
        ) by {
            assert(join_entries(entries)[k].name == entries[k].0->0);
        }
    }
    Action::Join { channels }
}

fn parse_privmsg_command(message: &ParsedMessage, query: &ServerQuery) -> (action: Action)
    requires
        query.state().has_user(query.client_id),
    ensures
        action@ == parse_privmsg(message@, query.state().user(query.client_id)),
        admissible(action@, query.state().user(query.client_id)),
{
    proof {
        reveal_strlit("451");
        reveal_strlit("461");
    }
    if !query.user().is_registered() {
        return Action::Error { code: ERR_NOTREGISTERED };
    }
    if message.params.len() == 0 {
        return Action::Error { code: ERR_NEEDMOREPARAMS };
    }
    let text = if message.params.len() > 1 {
        message.params[1].clone()
    } else {
        match &message.trailing {
            Some(text) => text.clone(),
            None => {
                return Action::Error { code: ERR_NEEDMOREPARAMS };
            },
        }
    };
    let targets = split(message.params[0].as_str(), ',');
    let ghost all = targets.deep_view();
    let mut users: Vec<String> = Vec::new();
    let mut channels: Vec<String> = Vec::new();
    proof {
        reveal(Seq::filter);
        assert(user_targets(all.take(0)) =~= Seq::<Seq<char>>::empty());
        assert(channel_targets(all.take(0)) =~= Seq::<Seq<char>>::empty());
        assert(users.deep_view() =~= Seq::<Seq<char>>::empty());
        assert(channels.deep_view() =~= Seq::<Seq<char>>::empty());
    }
    let mut i: usize = 0;
    while i < targets.len()
        invariant
            i <= targets.len(),
            all == targets.deep_view(),
            users.deep_view() == user_targets(all.take(i as int)),
            channels.deep_view() == channel_targets(all.take(i as int)),
        decreases targets.len() - i,
    {
        let ghost users_before = users.deep_view();
        let ghost channels_before = channels.deep_view();
        proof {
            let next = all.take(i as int + 1);
            assert(next.drop_last() =~= all.take(i as int));
            assert(next.last() == targets[i as int]@);
            lemma_targets_step(next);
        }
        if check_channel_name(targets[i].as_str()) {
            channels.push(targets[i].clone());
            proof {
                assert(channels.deep_view() =~= channels_before.push(targets[i as int]@));
            }
        } else {
            users.push(targets[i].clone());
            proof {
                assert(users.deep_view() =~= users_before.push(targets[i as int]@));
            }
        }
        i = i + 1;
    }
    proof {
        assert(all.take(i as int) =~= all);
    }
    Action::PrivateMessage { message: text, users, channels }
}

fn parse_quit_command(message: &ParsedMessage) -> (action: Action)
    ensures
        action@ == parse_quit(message@),
        action@.wf(),
{
    let reason = if message.params.len() > 0 {
        Some(message.params[0].clone())
    } else {
        match &message.trailing {
            Some(reason) => Some(reason.clone()),
            None => None,
        }
    };
    Action::Quit { reason }
}

impl ActionParser {
    /// Reads the command of one message of the client that `query` is
    /// bound to, and says what is to be done about it.
    pub fn parse(message: ParsedMessage, query: &mut ServerQuery) -> (action: Option<Action>)
        requires
            old(query).state().has_user(old(query).client_id),
        ensures
            parse_spec(message@, old(query).state().user(old(query).client_id)) == match action {
                Some(action) => Some(action@),
                None => None,
            },
            action matches Some(action) ==> admissible(
                action@,
                old(query).state().user(old(query).client_id),
            ),
            final(query).state() == old(query).state(),
            final(query).client_id == old(query).client_id,
            *final(final(query).server) == *final(old(query).server),
    {
        proof {
            reveal_strlit("451");
        }
        let command = message.command.as_str();
        if str_eq(command, "PING") {
            Some(parse_ping_command(&message))
        } else if str_eq(command, "NICK") {
            // NICK <nickname>
            Some(parse_nick_command(&message, &*query))
        } else if str_eq(command, "USER") {
            // USER <username> 0 * <realname>
            // USER <username> 0 * :<realname>
            Some(parse_user_command(&message, &*query))
        } else if str_eq(command, "MOTD") {
            if query.user().is_registered() {
                Some(Action::Motd)
            } else {
                Some(Action::Error { code: ERR_NOTREGISTERED })
            }
        } else if str_eq(command, "JOIN") {
            // JOIN <channels>[ <keys>]
            Some(parse_join_command(&message, &*query))
        } else if str_eq(command, "PRIVMSG") {
            // PRIVMSG <targets> <text>
            // PRIVMSG <targets> :<text>
            Some(parse_privmsg_command(&message, &*query))
        } else if str_eq(command, "QUIT") {
            Some(parse_quit_command(&message))
        } else {
            None
        }
    }
}

} // verus!
