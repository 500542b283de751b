use myriad::config::ServerConfig;
use myriad::server::action::Outbound;
use myriad::server::server_query::ServerQuery;
use myriad::server::Server;
use myriad::server::ServerEvent;
use myriad::wire::ParsedMessage;

fn server() -> Server {
    Server::new(ServerConfig::default(), String::from("today"))
}

fn connect(server: &mut Server, client_id: u64, host: &str) -> Vec<Outbound> {
    server.handle_command(ServerEvent::ClientConnected { client_id, host: host.to_string() })
}

fn say(server: &mut Server, client_id: u64, line: &str) -> Vec<Outbound> {
    server.handle_command(ServerEvent::IrcCommand { client_id, message: line.to_string() })
}

fn line(client_id: u64, text: &str) -> Outbound {
    Outbound::Line { client_id, line: format!("{}\r\n", text) }
}

#[test]
fn new_server_is_empty() {
    let mut server = server();
    assert_eq!(server.config().port, 6667);
    let query = ServerQuery::new(&mut server, 1);
    assert_eq!(query.user_count(), 0);
    assert_eq!(query.server_name(), "Myriad Devnet");
    assert_eq!(query.server_host(), "127.0.0.1");
    assert_eq!(query.server_startup_time(), "today");
    assert_eq!(query.server_config().feat_awaylen, 255);
    assert_eq!(query.server().config().host, "127.0.0.1");
}

#[test]
fn connected_client_gets_a_record() {
    let mut server = server();
    assert_eq!(connect(&mut server, 5, "10.1.2.3:4000"), vec![]);
    let query = ServerQuery::new(&mut server, 5);
    assert_eq!(query.user_count(), 1);
    let user = query.user();
    assert_eq!(user.client_id, 5);
    assert_eq!(user.host, "10.1.2.3:4000");
    assert_eq!(user.nickname, None);
    assert_eq!(user.username, None);
    assert_eq!(user.realname, None);
    assert_eq!(query.user_host(), "10.1.2.3:4000");
}

#[test]
fn connection_without_host_or_with_a_known_id_is_ignored() {
    let mut server = server();
    connect(&mut server, 5, "");
    assert_eq!(ServerQuery::new(&mut server, 5).user_count(), 0);
    connect(&mut server, 5, "first");
    connect(&mut server, 5, "second");
    let query = ServerQuery::new(&mut server, 5);
    assert_eq!(query.user_count(), 1);
    assert_eq!(query.user().host, "first");
}

#[test]
fn disconnected_client_leaves_table_and_channels() {
    let mut server = server();
    for client_id in [1, 2, 3] {
        connect(&mut server, client_id, "host");
        say(&mut server, client_id, &format!("NICK n{}", client_id));
        say(&mut server, client_id, &format!("USER u{} 0 * :Real", client_id));
        say(&mut server, client_id, "JOIN #foo");
    }
    let out = server.handle_command(ServerEvent::ClientDisconnected { client_id: 2 });
    assert_eq!(out, vec![]);
    let query = ServerQuery::new(&mut server, 1);
    assert_eq!(query.user_count(), 2);
    assert!(query.user_find_by_client_id(2).is_none());
    assert_eq!(query.channel_find("#foo").unwrap().clients(), &[1, 3]);
    let members: Vec<u64> =
        query.channel_users("#foo").unwrap().iter().map(|user| user.client_id).collect();
    assert_eq!(members, vec![1, 3]);
}

#[test]
fn disconnect_of_an_unknown_client_changes_nothing() {
    let mut server = server();
    connect(&mut server, 1, "host");
    server.handle_command(ServerEvent::ClientDisconnected { client_id: 9 });
    assert_eq!(ServerQuery::new(&mut server, 1).user_count(), 1);
}

#[test]
fn command_of_an_unknown_client_is_ignored() {
    let mut server = server();
    assert_eq!(say(&mut server, 9, "PING x"), vec![]);
    assert_eq!(ServerQuery::new(&mut server, 9).user_count(), 0);
}

#[test]
fn unknown_command_and_empty_line_do_nothing() {
    let mut server = server();
    connect(&mut server, 1, "host");
    assert_eq!(say(&mut server, 1, "WHOIS bob\r\n"), vec![]);
    assert_eq!(say(&mut server, 1, "\r\n"), vec![]);
    assert_eq!(say(&mut server, 1, ""), vec![]);
}

#[test]
fn trailing_white_space_of_a_line_is_dropped() {
    let mut server = server();
    connect(&mut server, 1, "host");
    assert_eq!(say(&mut server, 1, "PING abc \t\r\n"), vec![line(1, "PONG abc")]);
    assert_eq!(say(&mut server, 1, "PING\n"), vec![line(1, "PONG")]);
}

#[test]
fn handle_message_takes_a_tokenised_message() {
    let mut server = server();
    connect(&mut server, 1, "host");
    let ping = ParsedMessage {
        command: String::from("PING"),
        params: vec![String::from("42")],
        trailing: None,
    };
    assert_eq!(server.handle_message(1, ping.clone()), vec![line(1, "PONG 42")]);
    assert_eq!(server.handle_message(7, ping), vec![]);
}

#[test]
fn query_finds_users_by_nickname_and_id() {
    let mut server = server();
    connect(&mut server, 1, "h1");
    connect(&mut server, 2, "h2");
    say(&mut server, 1, "NICK alice");
    say(&mut server, 2, "NICK bob");
    let query = ServerQuery::new(&mut server, 2);
    assert_eq!(query.user_find_by_nickname("alice").map(|user| user.client_id), Some(1));
    assert_eq!(query.user_find_by_nickname("bob").map(|user| user.client_id), Some(2));
    assert!(query.user_find_by_nickname("Alice").is_none());
    assert!(query.user_find_by_nickname("carol").is_none());
    assert_eq!(query.user_find_by_client_id(1).map(|user| user.host.as_str()), Some("h1"));
    assert!(query.user_find_by_client_id(3).is_none());
    assert_eq!(query.user_nick_unsafe(), "bob");
}

#[test]
fn query_creates_and_finds_channels() {
    let mut server = server();
    connect(&mut server, 1, "h1");
    let mut query = ServerQuery::new(&mut server, 1);
    assert!(!query.channel_exists("#a"));
    query.channel_create(String::from("#a"));
    assert!(query.channel_exists("#a"));
    assert!(query.channel_find("#a").unwrap().clients().is_empty());
    {
        let channel = query.channel_get_or_create("#a");
        channel.join_user(1);
    }
    {
        let channel = query.channel_get_or_create("&b");
        assert_eq!(channel.name(), "&b");
        assert!(channel.clients().is_empty());
    }
    assert_eq!(query.channel_find("#a").unwrap().clients(), &[1]);
    assert!(query.channel_exists("&b"));
    assert!(query.channel_users("#none").is_none());
    let users = query.channel_users("#a").unwrap();
    assert_eq!(users.len(), 1);
    assert_eq!(users[0].client_id, 1);
}

#[test]
fn query_user_mut_changes_the_bound_record() {
    let mut server = server();
    connect(&mut server, 1, "h1");
    connect(&mut server, 2, "h2");
    let mut query = ServerQuery::new(&mut server, 2);
    query.user_mut().realname = Some(String::from("Bob B"));
    assert_eq!(query.user().realname.as_deref(), Some("Bob B"));
    assert_eq!(query.user_find_by_client_id(1).unwrap().realname, None);
    let rebound = ServerQuery::new(query.server_mut(), 1);
    assert_eq!(rebound.user().host, "h1");
}
