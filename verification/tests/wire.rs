use myriad::wire::frame;
use myriad::wire::ParsedMessage;

fn parsed(command: &str, params: &[&str], trailing: Option<&str>) -> ParsedMessage {
    ParsedMessage {
        command: command.to_string(),
        params: params.iter().map(|param| param.to_string()).collect(),
        trailing: trailing.map(|text| text.to_string()),
    }
}

#[test]
fn from_line_finds_the_command() {
    assert_eq!(ParsedMessage::from_line("MOTD"), Some(parsed("MOTD", &[], None)));
}

#[test]
fn from_line_finds_the_parameters() {
    assert_eq!(ParsedMessage::from_line("NICK alice"), Some(parsed("NICK", &["alice"], None)));
    assert_eq!(
        ParsedMessage::from_line("JOIN #a,#b key"),
        Some(parsed("JOIN", &["#a,#b", "key"], None))
    );
}

#[test]
fn from_line_finds_the_trailing_parameter() {
    assert_eq!(
        ParsedMessage::from_line("USER alice 0 * :Alice A"),
        Some(parsed("USER", &["alice", "0", "*"], Some("Alice A")))
    );
    assert_eq!(
        ParsedMessage::from_line("PRIVMSG #foo :hello there"),
        Some(parsed("PRIVMSG", &["#foo"], Some("hello there")))
    );
    assert_eq!(ParsedMessage::from_line("QUIT :"), Some(parsed("QUIT", &[], Some(""))));
}

#[test]
fn from_line_skips_a_prefix() {
    assert_eq!(
        ParsedMessage::from_line(":alice!user@host PRIVMSG bob :hi"),
        Some(parsed("PRIVMSG", &["bob"], Some("hi")))
    );
}

#[test]
fn from_line_keeps_an_empty_parameter() {
    assert_eq!(ParsedMessage::from_line("PING  x"), Some(parsed("PING", &["", "x"], None)));
}

#[test]
fn from_line_rejects_the_empty_line() {
    assert_eq!(ParsedMessage::from_line(""), None);
}

#[test]
fn frame_appends_cr_lf() {
    assert_eq!(frame(String::from("PONG")), "PONG\r\n");
    assert_eq!(frame(String::new()), "\r\n");
}
