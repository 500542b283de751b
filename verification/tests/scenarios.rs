use myriad::config::ServerConfig;
use myriad::server::action::Outbound;
use myriad::server::server_query::ServerQuery;
use myriad::server::Server;
use myriad::server::ServerEvent;

fn new_server() -> Server {
    Server::new(ServerConfig::default(), String::from("Thu Jan 1 00:00:00 1970"))
}

fn connect(server: &mut Server, client_id: u64, host: &str) {
    let out = server.handle_command(ServerEvent::ClientConnected {
        client_id,
        host: host.to_string(),
    });
    assert!(out.is_empty());
}

fn say(server: &mut Server, client_id: u64, line: &str) -> Vec<Outbound> {
    server.handle_command(ServerEvent::IrcCommand { client_id, message: line.to_string() })
}

fn line(client_id: u64, text: &str) -> Outbound {
    Outbound::Line { client_id, line: format!("{}\r\n", text) }
}

fn register(server: &mut Server, client_id: u64, nickname: &str) {
    connect(server, client_id, "10.0.0.1:5000");
    assert!(say(server, client_id, &format!("NICK {}\r\n", nickname)).is_empty());
    let out = say(server, client_id, &format!("USER {} 0 * :Somebody\r\n", nickname));
    assert_eq!(out.len(), 8);
}

#[test]
fn registration_sends_the_welcome_sequence() {
    let mut server = new_server();
    connect(&mut server, 1, "10.0.0.1:5000");
    assert_eq!(say(&mut server, 1, "NICK alice\r\n"), vec![]);
    let out = say(&mut server, 1, "USER alice 0 * :Alice A\r\n");
    assert_eq!(
        out,
        vec![
            line(1, "001 alice :Welcome to Myriad Devnet, alice"),
            line(1, "002 alice :Your host is Myriad, running version 0.1.0"),
            line(1, "003 alice :This server was created Thu Jan 1 00:00:00 1970"),
            line(1, "005 alice AWAYLEN=255 CASEMAPPING=ascii :are supported by this server"),
            line(1, "251 alice :There are 1 users and 0 invisible on 1 server"),
            line(1, "375 alice :- Myriad Devnet Message of the day - "),
            line(1, "372 alice :Don't worry, it only seems kinky the first time."),
            line(1, "376 alice :End of /MOTD command."),
        ]
    );
    let query = ServerQuery::new(&mut server, 1);
    let user = query.user();
    assert_eq!(user.nickname.as_deref(), Some("alice"));
    assert_eq!(user.username.as_deref(), Some("~alice"));
    assert_eq!(user.realname.as_deref(), Some("Alice A"));
}

#[test]
fn duplicate_nick_is_refused() {
    let mut server = new_server();
    register(&mut server, 1, "alice");
    let out = say(&mut server, 1, "NICK alice\r\n");
    assert_eq!(out, vec![line(1, ":127.0.0.1 433 * 10.0.0.1:5000")]);
}

#[test]
fn join_is_announced_to_every_member() {
    let mut server = new_server();
    register(&mut server, 1, "alice");
    register(&mut server, 2, "bob");
    assert_eq!(say(&mut server, 1, "JOIN #foo\r\n"), vec![line(1, ":alice JOIN #foo")]);
    let out = say(&mut server, 2, "JOIN #foo\r\n");
    assert_eq!(out, vec![line(1, ":alice JOIN #foo"), line(2, ":bob JOIN #foo")]);
}

#[test]
fn channel_message_reaches_the_others_only() {
    let mut server = new_server();
    register(&mut server, 1, "alice");
    register(&mut server, 2, "bob");
    say(&mut server, 1, "JOIN #foo\r\n");
    say(&mut server, 2, "JOIN #foo\r\n");
    let out = say(&mut server, 1, "PRIVMSG #foo :hello\r\n");
    assert_eq!(out, vec![line(2, ":alice PRIVMSG #foo :hello")]);
}

#[test]
fn private_message_reaches_its_target() {
    let mut server = new_server();
    register(&mut server, 1, "alice");
    register(&mut server, 2, "bob");
    let out = say(&mut server, 1, "PRIVMSG bob :hi\r\n");
    assert_eq!(out, vec![line(2, ":alice PRIVMSG bob :hi")]);
}

#[test]
fn quit_closes_and_forgets_the_client() {
    let mut server = new_server();
    register(&mut server, 1, "alice");
    register(&mut server, 2, "bob");
    let out = say(&mut server, 1, "QUIT :bye\r\n");
    assert_eq!(out, vec![Outbound::Close { client_id: 1 }]);
    assert_eq!(say(&mut server, 2, "PRIVMSG alice :still there?\r\n"), vec![]);
    let query = ServerQuery::new(&mut server, 2);
    assert_eq!(query.user_count(), 1);
    assert!(query.user_find_by_client_id(1).is_none());
}
