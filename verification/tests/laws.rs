use myriad::config::ServerConfig;
use myriad::server::action::Outbound;
use myriad::server::server_query::ServerQuery;
use myriad::server::Server;
use myriad::server::ServerEvent;

fn server_with_clients(count: u64) -> Server {
    let mut server = Server::new(ServerConfig::default(), String::from("today"));
    for client_id in 1..=count {
        server.handle_command(ServerEvent::ClientConnected {
            client_id,
            host: format!("host{}", client_id),
        });
        say(&mut server, client_id, &format!("NICK nick{}", client_id));
        say(&mut server, client_id, &format!("USER user{} 0 * :Real {}", client_id, client_id));
    }
    server
}

fn say(server: &mut Server, client_id: u64, line: &str) -> Vec<Outbound> {
    server.handle_command(ServerEvent::IrcCommand { client_id, message: line.to_string() })
}

fn line(client_id: u64, text: &str) -> Outbound {
    Outbound::Line { client_id, line: format!("{}\r\n", text) }
}

fn lines_for(sent: &[Outbound], client: u64) -> usize {
    sent.iter().filter(|outbound| matches!(outbound, Outbound::Line { client_id, .. } if *client_id == client)).count()
}

fn assert_members_exist(server: &mut Server, channels: &[&str]) {
    let query = ServerQuery::new(server, 0);
    for name in channels {
        if let Some(channel) = query.channel_find(name) {
            for member in channel.clients() {
                assert!(query.user_find_by_client_id(*member).is_some(), "{} in {}", member, name);
            }
        }
    }
}

#[test]
fn members_of_channels_are_always_in_the_user_table() {
    let mut server = server_with_clients(4);
    let channels = ["#a", "#b", "&c"];
    let steps: Vec<ServerEvent> = vec![
        ServerEvent::IrcCommand { client_id: 1, message: String::from("JOIN #a,#b") },
        ServerEvent::IrcCommand { client_id: 2, message: String::from("JOIN #a,&c") },
        ServerEvent::IrcCommand { client_id: 3, message: String::from("JOIN #b") },
        ServerEvent::ClientDisconnected { client_id: 1 },
        ServerEvent::IrcCommand { client_id: 2, message: String::from("QUIT :bye") },
        ServerEvent::IrcCommand { client_id: 4, message: String::from("JOIN #a") },
        ServerEvent::IrcCommand { client_id: 2, message: String::from("JOIN #a") },
        ServerEvent::ClientDisconnected { client_id: 2 },
        ServerEvent::ClientConnected { client_id: 1, host: String::from("again") },
        ServerEvent::IrcCommand { client_id: 1, message: String::from("JOIN #a") },
        ServerEvent::ClientDisconnected { client_id: 3 },
        ServerEvent::ClientDisconnected { client_id: 4 },
    ];
    for step in steps {
        server.handle_command(step);
        assert_members_exist(&mut server, &channels);
    }
    let query = ServerQuery::new(&mut server, 1);
    assert!(query.channel_find("#a").unwrap().clients().is_empty());
    assert!(query.channel_find("#b").unwrap().clients().is_empty());
}

#[test]
fn channel_message_is_delivered_once_to_each_other_member() {
    let mut server = server_with_clients(3);
    say(&mut server, 1, "JOIN #foo");
    say(&mut server, 2, "JOIN #foo");
    say(&mut server, 3, "JOIN #foo");
    say(&mut server, 2, "JOIN #foo");
    let sent = say(&mut server, 1, "PRIVMSG #foo :hello");
    assert_eq!(lines_for(&sent, 1), 0);
    assert_eq!(lines_for(&sent, 2), 1);
    assert_eq!(lines_for(&sent, 3), 1);
    assert_eq!(
        sent,
        vec![line(2, ":nick1 PRIVMSG #foo :hello"), line(3, ":nick1 PRIVMSG #foo :hello")]
    );
}

#[test]
fn same_nick_is_refused_and_changes_nothing() {
    let mut server = server_with_clients(2);
    let sent = say(&mut server, 2, "NICK nick2");
    assert_eq!(sent, vec![line(2, ":127.0.0.1 433 * host2")]);
    let query = ServerQuery::new(&mut server, 2);
    assert_eq!(query.user().nickname.as_deref(), Some("nick2"));
    assert_eq!(query.user().username.as_deref(), Some("~user2"));
    assert_eq!(query.user_count(), 2);
}

#[test]
fn user_after_registration_is_refused() {
    let mut server = server_with_clients(1);
    let sent = say(&mut server, 1, "USER other 0 * :Other Name");
    assert_eq!(sent, vec![line(1, ":127.0.0.1 462 * host1")]);
    let query = ServerQuery::new(&mut server, 1);
    assert_eq!(query.user().username.as_deref(), Some("~user1"));
    assert_eq!(query.user().realname.as_deref(), Some("Real 1"));
}

#[test]
fn user_after_registration_without_parameters_lacks_parameters() {
    let mut server = server_with_clients(1);
    assert_eq!(say(&mut server, 1, "USER other"), vec![line(1, ":127.0.0.1 461 * host1")]);
}

#[test]
fn ping_is_answered_with_pong() {
    let mut server = server_with_clients(1);
    assert_eq!(say(&mut server, 1, "PING"), vec![line(1, "PONG")]);
    assert_eq!(say(&mut server, 1, "PING irc.example.org"), vec![line(1, "PONG irc.example.org")]);
}

#[test]
fn replies_to_a_registration_come_in_one_run() {
    let mut server = server_with_clients(2);
    say(&mut server, 1, "JOIN #foo");
    server.handle_command(ServerEvent::ClientConnected {
        client_id: 9,
        host: String::from("host9"),
    });
    say(&mut server, 9, "NICK nine");
    let sent = say(&mut server, 9, "USER nine 0 * :Nine");
    assert_eq!(sent.len(), 8);
    assert_eq!(lines_for(&sent, 9), 8);
    let codes: Vec<&str> = sent
        .iter()
        .map(|outbound| match outbound {
            Outbound::Line { line, .. } => &line[..3],
            Outbound::Close { .. } => "",
        })
        .collect();
    assert_eq!(codes, vec!["001", "002", "003", "005", "251", "375", "372", "376"]);
}
