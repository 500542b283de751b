use myriad::config::ServerConfig;
use myriad::models::ChannelRef;
use myriad::numerics::ERR_ALREADYREGISTRED;
use myriad::numerics::ERR_NEEDMOREPARAMS;
use myriad::numerics::ERR_NICKNAMEINUSE;
use myriad::numerics::ERR_NONICKNAMEGIVEN;
use myriad::numerics::ERR_NOSUCHCHANNEL;
use myriad::numerics::ERR_NOTREGISTERED;
use myriad::server::action::Action;
use myriad::server::action_parser::ActionParser;
use myriad::server::server_query::ServerQuery;
use myriad::server::Server;
use myriad::server::ServerEvent;
use myriad::wire::ParsedMessage;

/// A server with three clients: 1 has just connected, 2 has a nickname
/// only, 3 is registered.
fn server() -> Server {
    let mut server = Server::new(ServerConfig::default(), String::from("today"));
    for client_id in [1, 2, 3] {
        server.handle_command(ServerEvent::ClientConnected {
            client_id,
            host: format!("10.0.0.{}:5000", client_id),
        });
    }
    send(&mut server, 2, "NICK bob");
    send(&mut server, 3, "NICK carol");
    send(&mut server, 3, "USER carol 0 * :Carol C");
    server
}

fn send(server: &mut Server, client_id: u64, line: &str) {
    server.handle_command(ServerEvent::IrcCommand { client_id, message: line.to_string() });
}

fn message(command: &str, params: &[&str], trailing: Option<&str>) -> ParsedMessage {
    ParsedMessage {
        command: command.to_string(),
        params: params.iter().map(|param| param.to_string()).collect(),
        trailing: trailing.map(|text| text.to_string()),
    }
}

fn parse(client_id: u64, message: ParsedMessage) -> Option<Action> {
    let mut server = server();
    let mut query = ServerQuery::new(&mut server, client_id);
    ActionParser::parse(message, &mut query)
}

fn error(code: &'static str) -> Option<Action> {
    Some(Action::Error { code })
}

fn strings(items: &[&str]) -> Vec<String> {
    items.iter().map(|item| item.to_string()).collect()
}

#[test]
fn ping_without_parameter() {
    assert_eq!(parse(1, message("PING", &[], None)), Some(Action::Pong { challenge: None }));
}

#[test]
fn ping_with_parameter() {
    assert_eq!(
        parse(1, message("PING", &["12345"], None)),
        Some(Action::Pong { challenge: Some(String::from("12345")) })
    );
    assert_eq!(
        parse(1, message("PING", &["a", "b"], Some("c"))),
        Some(Action::Pong { challenge: Some(String::from("a")) })
    );
}

#[test]
fn ping_with_trailing_only_has_no_challenge() {
    assert_eq!(parse(1, message("PING", &[], Some("x"))), Some(Action::Pong { challenge: None }));
}

#[test]
fn ping_with_empty_parameter_has_no_challenge() {
    assert_eq!(parse(1, message("PING", &["", "x"], None)), Some(Action::Pong { challenge: None }));
}

#[test]
fn nick_without_nickname() {
    assert_eq!(parse(1, message("NICK", &[], None)), error(ERR_NONICKNAMEGIVEN));
    assert_eq!(parse(1, message("NICK", &[], Some("alice"))), error(ERR_NONICKNAMEGIVEN));
    assert_eq!(parse(1, message("NICK", &[""], None)), error(ERR_NONICKNAMEGIVEN));
}

#[test]
fn first_nick_is_set() {
    assert_eq!(
        parse(1, message("NICK", &["alice"], None)),
        Some(Action::SetNick { nickname: String::from("alice") })
    );
}

#[test]
fn same_nick_is_in_use() {
    assert_eq!(parse(2, message("NICK", &["bob"], None)), error(ERR_NICKNAMEINUSE));
    assert_eq!(parse(3, message("NICK", &["carol"], None)), error(ERR_NICKNAMEINUSE));
}

#[test]
fn other_nick_is_a_change() {
    assert_eq!(
        parse(2, message("NICK", &["robert"], None)),
        Some(Action::ChangeNick {
            prev_nickname: String::from("bob"),
            nickname: String::from("robert")
        })
    );
    assert_eq!(
        parse(2, message("NICK", &["Bob"], None)),
        Some(Action::ChangeNick {
            prev_nickname: String::from("bob"),
            nickname: String::from("Bob")
        })
    );
}

#[test]
fn user_needs_three_parameters() {
    assert_eq!(parse(1, message("USER", &[], None)), error(ERR_NEEDMOREPARAMS));
    assert_eq!(parse(1, message("USER", &["alice"], Some("Alice A"))), error(ERR_NEEDMOREPARAMS));
    assert_eq!(
        parse(1, message("USER", &["alice", "0"], Some("Alice A"))),
        error(ERR_NEEDMOREPARAMS)
    );
}

#[test]
fn user_needs_a_real_name() {
    assert_eq!(parse(1, message("USER", &["alice", "0", "*"], None)), error(ERR_NEEDMOREPARAMS));
}

#[test]
fn user_with_trailing_real_name() {
    assert_eq!(
        parse(1, message("USER", &["alice", "0", "*"], Some("Alice A"))),
        Some(Action::SetUserAndRealName {
            username: String::from("~alice"),
            realname: String::from("Alice A")
        })
    );
}

#[test]
fn user_with_fourth_parameter_as_real_name() {
    assert_eq!(
        parse(1, message("USER", &["alice", "0", "*", "Alice"], Some("ignored"))),
        Some(Action::SetUserAndRealName {
            username: String::from("~alice"),
            realname: String::from("Alice")
        })
    );
}

#[test]
fn user_with_nonstandard_parameters_is_accepted() {
    assert_eq!(
        parse(2, message("USER", &["bob", "8", "host"], Some("Bob B"))),
        Some(Action::SetUserAndRealName {
            username: String::from("~bob"),
            realname: String::from("Bob B")
        })
    );
}

#[test]
fn second_user_is_refused() {
    assert_eq!(
        parse(3, message("USER", &["carol", "0", "*"], Some("Carol C"))),
        error(ERR_ALREADYREGISTRED)
    );
}

#[test]
fn second_user_without_parameters_lacks_parameters() {
    assert_eq!(parse(3, message("USER", &["carol"], None)), error(ERR_NEEDMOREPARAMS));
}

#[test]
fn motd_needs_registration() {
    assert_eq!(parse(3, message("MOTD", &[], None)), Some(Action::Motd));
    assert_eq!(parse(1, message("MOTD", &[], None)), error(ERR_NOTREGISTERED));
    assert_eq!(parse(2, message("MOTD", &[], None)), error(ERR_NOTREGISTERED));
}

#[test]
fn join_one_channel() {
    assert_eq!(
        parse(3, message("JOIN", &["#foo"], None)),
        Some(Action::Join { channels: vec![ChannelRef { name: String::from("#foo"), key: None }] })
    );
}

#[test]
fn join_pairs_names_with_keys() {
    assert_eq!(
        parse(3, message("JOIN", &["#a,&b,#c", "k1,k2"], None)),
        Some(Action::Join {
            channels: vec![
                ChannelRef { name: String::from("#a"), key: Some(String::from("k1")) },
                ChannelRef { name: String::from("&b"), key: Some(String::from("k2")) },
                ChannelRef { name: String::from("#c"), key: None },
            ]
        })
    );
}

#[test]
fn join_with_a_key_but_no_channel_is_refused() {
    assert_eq!(parse(3, message("JOIN", &["#a", "k1,k2"], None)), error(ERR_NEEDMOREPARAMS));
}

#[test]
fn join_without_parameters_is_refused() {
    assert_eq!(parse(3, message("JOIN", &[], None)), error(ERR_NEEDMOREPARAMS));
    assert_eq!(parse(3, message("JOIN", &[], Some("#foo"))), error(ERR_NEEDMOREPARAMS));
}

#[test]
fn join_with_a_bad_channel_name_is_refused() {
    assert_eq!(parse(3, message("JOIN", &["foo"], None)), error(ERR_NOSUCHCHANNEL));
    assert_eq!(parse(3, message("JOIN", &["#a,b"], None)), error(ERR_NOSUCHCHANNEL));
    assert_eq!(parse(3, message("JOIN", &["#a,,#b"], None)), error(ERR_NOSUCHCHANNEL));
    assert_eq!(parse(3, message("JOIN", &[""], None)), error(ERR_NOSUCHCHANNEL));
}

#[test]
fn join_needs_registration() {
    assert_eq!(parse(1, message("JOIN", &["#foo"], None)), error(ERR_NOTREGISTERED));
    assert_eq!(parse(2, message("JOIN", &["#foo"], None)), error(ERR_NOTREGISTERED));
}

#[test]
fn privmsg_sorts_targets_by_their_first_character() {
    assert_eq!(
        parse(3, message("PRIVMSG", &["#a,bob,&b,alice"], Some("hello"))),
        Some(Action::PrivateMessage {
            message: String::from("hello"),
            users: strings(&["bob", "alice"]),
            channels: strings(&["#a", "&b"]),
        })
    );
}

#[test]
fn privmsg_text_is_the_second_parameter_if_there_is_one() {
    assert_eq!(
        parse(3, message("PRIVMSG", &["bob", "hi"], Some("ignored"))),
        Some(Action::PrivateMessage {
            message: String::from("hi"),
            users: strings(&["bob"]),
            channels: strings(&[]),
        })
    );
}

#[test]
fn privmsg_without_targets_or_text_is_refused() {
    assert_eq!(parse(3, message("PRIVMSG", &[], None)), error(ERR_NEEDMOREPARAMS));
    assert_eq!(parse(3, message("PRIVMSG", &[], Some("hello"))), error(ERR_NEEDMOREPARAMS));
    assert_eq!(parse(3, message("PRIVMSG", &["bob"], None)), error(ERR_NEEDMOREPARAMS));
}

#[test]
fn privmsg_needs_registration() {
    assert_eq!(parse(2, message("PRIVMSG", &["carol"], Some("hi"))), error(ERR_NOTREGISTERED));
}

#[test]
fn quit_with_and_without_reason() {
    assert_eq!(parse(1, message("QUIT", &[], None)), Some(Action::Quit { reason: None }));
    assert_eq!(
        parse(1, message("QUIT", &[], Some("bye"))),
        Some(Action::Quit { reason: Some(String::from("bye")) })
    );
    assert_eq!(
        parse(1, message("QUIT", &["gone"], Some("bye"))),
        Some(Action::Quit { reason: Some(String::from("gone")) })
    );
}

#[test]
fn unknown_command_yields_no_action() {
    assert_eq!(parse(3, message("WHOIS", &["bob"], None)), None);
    assert_eq!(parse(3, message("ping", &[], None)), None);
    assert_eq!(parse(3, message("", &[], None)), None);
}

#[test]
fn parse_leaves_the_state_alone() {
    let mut server = server();
    let mut query = ServerQuery::new(&mut server, 1);
    ActionParser::parse(message("NICK", &["alice"], None), &mut query);
    assert_eq!(query.user().nickname, None);
    assert_eq!(query.user_count(), 3);
}
