//! The lines that the server sends, and the helpers that write them.

use crate::casemap::nick_key;
use crate::models::UserView;
use crate::numerics::RPL_CREATED;
use crate::numerics::RPL_ENDOFMOTD;
use crate::numerics::RPL_ISUPPORT;
use crate::numerics::RPL_LUSERCLIENT;
use crate::numerics::RPL_MOTD;
use crate::numerics::RPL_MOTDSTART;
use crate::numerics::RPL_TOPIC;
use crate::numerics::RPL_WELCOME;
use crate::numerics::RPL_YOURHOST;
use crate::server::action::outbound_views;
use crate::server::action::Outbound;
use crate::server::action::OutboundView;
use crate::server::action::SOFTWARE_VERSION;
use crate::server::server_query::ServerQuery;
use crate::server::state_lemmas::lemma_user_position;
use crate::server::ServerView;
use crate::text::concat2;
use crate::text::concat3;
use crate::text::decimal;
use crate::text::decimal_spec;
use crate::wire::frame;
use crate::wire::framed;
use crate::wire::line_spec;
use crate::wire::render;
use vstd::prelude::*;
use vstd::string::*;

verus! {

/// The message `text`, terminated, addressed to `client_id`.
pub open spec fn line_to(client_id: u64, text: Seq<char>) -> OutboundView {
    OutboundView::Line { client_id, line: framed(text) }
}

/// The messages `texts`, in order, all addressed to `client_id`.
pub open spec fn lines_to(client_id: u64, texts: Seq<Seq<char>>) -> Seq<OutboundView> {
    texts.map_values(|text: Seq<char>| line_to(client_id, text))
}

/// `:<server-host> <code> * <user-host>`
pub open spec fn error_line(state: ServerView, user: UserView, code: Seq<char>) -> Seq<char> {
    line_spec(Some(state.config.host), code, seq![seq!['*'], user.host], None)
}

/// `PONG[ <challenge>]`
pub open spec fn pong_line(challenge: Option<Seq<char>>) -> Seq<char> {
    line_spec(
        None,
        "PONG"@,
        match challenge {
            Some(challenge) => seq![challenge],
            None => Seq::empty(),
        },
        None,
    )
}

/// The five replies that greet a client, parameterised by its nickname.
pub open spec fn welcome_lines(state: ServerView, nickname: Seq<char>) -> Seq<Seq<char>> {
    seq![
        line_spec(
            None,
            RPL_WELCOME@,
            seq![nickname],
            Some("Welcome to "@ + state.config.name + ", "@ + nickname),
        ),
        line_spec(
            None,
            RPL_YOURHOST@,
            seq![nickname],
            Some("Your host is Myriad, running version "@ + SOFTWARE_VERSION@),
        ),
        line_spec(
            None,
            RPL_CREATED@,
            seq![nickname],
            Some("This server was created "@ + state.startup_time),
        ),
        line_spec(
            None,
            RPL_ISUPPORT@,
            seq![
                nickname,
                "AWAYLEN="@ + decimal_spec(state.config.feat_awaylen as nat),
                "CASEMAPPING="@ + state.config.feat_casemap.token(),
            ],
            Some("are supported by this server"@),
        ),
        line_spec(
            None,
            RPL_LUSERCLIENT@,
            seq![nickname],
            Some(
                "There are "@ + decimal_spec(state.users.len()) + " users and 0 invisible on 1 server"@,
            ),
        ),
    ]
}

/// The three replies that carry the message of the day.
pub open spec fn motd_lines(state: ServerView, nickname: Seq<char>) -> Seq<Seq<char>> {
    seq![
        line_spec(
            None,
            RPL_MOTDSTART@,
            seq![nickname],
            Some("- "@ + state.config.name + " Message of the day - "@),
        ),
        line_spec(None, RPL_MOTD@, seq![nickname], Some(state.config.motd)),
        line_spec(None, RPL_ENDOFMOTD@, seq![nickname], Some("End of /MOTD command."@)),
    ]
}

/// `332 <nickname> <channel> :<topic>`
pub open spec fn topic_line(nickname: Seq<char>, channel: Seq<char>, topic: Seq<char>) -> Seq<
    char,
> {
    line_spec(None, RPL_TOPIC@, seq![nickname, channel], Some(topic))
}

/// `:<nickname> JOIN <channel>`
pub open spec fn join_line(nickname: Seq<char>, channel: Seq<char>) -> Seq<char> {
    line_spec(Some(nickname), "JOIN"@, seq![channel], None)
}

/// `:<from> PRIVMSG <target> :<message>`
pub open spec fn privmsg_line(from: Seq<char>, target: Seq<char>, message: Seq<char>) -> Seq<
    char,
> {
    line_spec(Some(from), "PRIVMSG"@, seq![target], Some(message))
}

/// Appends one line for `client_id` to what is sent.
pub(crate) fn send(outbox: &mut Vec<Outbound>, client_id: u64, text: String)
    ensures
        outbound_views(final(outbox)@) == outbound_views(old(outbox)@).push(
            line_to(client_id, text@),
        ),
{
    let ghost before = outbox@;
    let outbound = Outbound::Line { client_id, line: frame(text) };
    outbox.push(outbound);
    proof {
        assert(outbound_views(before.push(outbound)) =~= outbound_views(before).push(outbound@));
    }
}

/// A parameter list of one.
pub(crate) fn one(a: &str) -> (params: Vec<String>)
    ensures
        params.deep_view() == seq![a@],
{
    let mut params: Vec<String> = Vec::new();
    params.push(a.to_owned());
    assert(params.deep_view() =~= seq![a@]);
    params
}

/// A parameter list of two.
pub(crate) fn two(a: &str, b: &str) -> (params: Vec<String>)
    ensures
        params.deep_view() == seq![a@, b@],
{
    let mut params: Vec<String> = Vec::new();
    params.push(a.to_owned());
    params.push(b.to_owned());
    assert(params.deep_view() =~= seq![a@, b@]);
    params
}

/// The record of the acting client is well formed.
pub proof fn lemma_acting_user(state: ServerView, client_id: u64)
    requires
        state.wf(),
        state.has_user(client_id),
    ensures
        state.user(client_id).wf(),
        state.user(client_id).client_id == client_id,
        state.user(client_id).nickname is Some ==> state.has_nick(client_id),
        state.user(client_id).nickname matches Some(nickname) ==> !state.nickname_taken(
            client_id,
            nickname,
        ),
{
    let at = lemma_user_position(state, client_id);
    assert(state.users[at].wf());
    if state.user(client_id).nickname is Some {
        let nickname = state.user(client_id).nickname->0;
        if state.nickname_taken(client_id, nickname) {
            let j = choose|j: int|
                0 <= j < state.users.len() && (#[trigger] state.users[j]).client_id != client_id
                    && (state.users[j].nickname matches Some(other) && nick_key(
                    state.config.feat_casemap,
                    other,
                ) == nick_key(state.config.feat_casemap, nickname));
            assert(state.users[j].nickname is Some && state.users[at].nickname is Some);
        }
    }
}

/// Sending to one client, list after list, is sending the joined list.
pub proof fn lemma_lines_to_add(client_id: u64, a: Seq<Seq<char>>, b: Seq<Seq<char>>)
    ensures
        lines_to(client_id, a + b) == lines_to(client_id, a) + lines_to(client_id, b),
{
    assert(lines_to(client_id, a + b) =~= lines_to(client_id, a) + lines_to(client_id, b));
}

pub(crate) fn send_error(query: &ServerQuery, outbox: &mut Vec<Outbound>, code: &str)
    requires
        query.state().wf(),
        query.state().has_user(query.client_id),
        code@.len() > 0,
    ensures
        outbound_views(final(outbox)@) == outbound_views(old(outbox)@).push(
            line_to(
                query.client_id,
                error_line(query.state(), query.state().user(query.client_id), code@),
            ),
        ),
{
    proof {
        lemma_acting_user(query.state(), query.client_id);
        reveal_strlit("*");
        assert("*"@ =~= seq!['*']);
    }
    let host = query.user_host();
    let params = two("*", host.as_str());
    let text = render(Some(query.server_host()), code, &params, None);
    send(outbox, query.client_id, text);
}

pub(crate) fn send_welcome(query: &ServerQuery, outbox: &mut Vec<Outbound>)
    requires
        query.state().wf(),
        query.state().has_user(query.client_id),
        query.state().user(query.client_id).nickname is Some,
    ensures
        outbound_views(final(outbox)@) == outbound_views(old(outbox)@) + lines_to(
            query.client_id,
            welcome_lines(query.state(), query.state().user(query.client_id).nickname->0),
        ),
{
    proof {
        lemma_acting_user(query.state(), query.client_id);
        reveal_strlit("001");
        reveal_strlit("002");
        reveal_strlit("003");
        reveal_strlit("005");
        reveal_strlit("251");
        reveal_strlit("AWAYLEN=");
        reveal_strlit("CASEMAPPING=");
    }
    let ghost before = outbound_views(outbox@);
    let ghost state = query.state();
    let client_id = query.client_id;
    let nickname = query.user_nick_unsafe();
    let params = one(nickname.as_str());
    let welcome = render(
        None,
        RPL_WELCOME,
        &params,
        Some(
            concat3("Welcome to ", query.server_name(), ", ").concat(nickname.as_str()).as_str(),
        ),
    );
    let yourhost = render(
        None,
        RPL_YOURHOST,
        &params,
        Some(concat2("Your host is Myriad, running version ", SOFTWARE_VERSION).as_str()),
    );
    let created = render(
        None,
        RPL_CREATED,
        &params,
        Some(concat2("This server was created ", query.server_startup_time().as_str()).as_str()),
    );
    let awaylen: u64 = query.server_config().feat_awaylen as u64;
    let mut features: Vec<String> = Vec::new();
    features.push(nickname.clone());
    features.push(concat2("AWAYLEN=", decimal(awaylen).as_str()));
    features.push(
        concat2("CASEMAPPING=", query.server_config().feat_casemap.to_string().as_str()),
    );
    proof {
        assert(features.deep_view() =~= seq![
            nickname@,
            "AWAYLEN="@ + decimal_spec(state.config.feat_awaylen as nat),
            "CASEMAPPING="@ + state.config.feat_casemap.token(),
        ]);
    }
    let isupport = render(None, RPL_ISUPPORT, &features, Some("are supported by this server"));
    let count: u64 = query.user_count() as u64;
    let lusers = render(
        None,
        RPL_LUSERCLIENT,
        &params,
        Some(
            concat3(
                "There are ",
                decimal(count).as_str(),
                " users and 0 invisible on 1 server",
            ).as_str(),
        ),
    );
    send(outbox, client_id, welcome);
    send(outbox, client_id, yourhost);
    send(outbox, client_id, created);
    send(outbox, client_id, isupport);
    send(outbox, client_id, lusers);
    proof {
        assert(outbound_views(outbox@) =~= before + lines_to(
            client_id,
            welcome_lines(state, nickname@),
        ));
    }
}

pub(crate) fn send_motd(query: &ServerQuery, outbox: &mut Vec<Outbound>)
    requires
        query.state().wf(),
        query.state().has_user(query.client_id),
        query.state().user(query.client_id).nickname is Some,
    ensures
        outbound_views(final(outbox)@) == outbound_views(old(outbox)@) + lines_to(
            query.client_id,
            motd_lines(query.state(), query.state().user(query.client_id).nickname->0),
        ),
{
    proof {
        lemma_acting_user(query.state(), query.client_id);
        reveal_strlit("375");
        reveal_strlit("372");
        reveal_strlit("376");
    }
    let ghost before = outbound_views(outbox@);
    let ghost state = query.state();
    let client_id = query.client_id;
    let nickname = query.user_nick_unsafe();
    let params = one(nickname.as_str());
    let start = render(
        None,
        RPL_MOTDSTART,
        &params,
        Some(concat3("- ", query.server_name(), " Message of the day - ").as_str()),
    );
    let body = render(None, RPL_MOTD, &params, Some(query.server_config().motd.as_str()));
    let end = render(None, RPL_ENDOFMOTD, &params, Some("End of /MOTD command."));
    send(outbox, client_id, start);
    send(outbox, client_id, body);
    send(outbox, client_id, end);
    proof {
        assert(outbound_views(outbox@) =~= before + lines_to(
            client_id,
            motd_lines(state, nickname@),
        ));
    }
}

} // verus!
