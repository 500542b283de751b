use myriad::config::CaseMap;
use myriad::config::ServerConfig;
use myriad::models::channel::check_channel_name;
use myriad::models::Channel;
use myriad::models::ChannelRef;
use myriad::models::User;

#[test]
fn new_channel_is_empty() {
    let channel = Channel::new(String::from("#foo"));
    assert_eq!(channel.name(), "#foo");
    assert_eq!(channel.topic(), "");
    assert!(channel.clients().is_empty());
}

#[test]
fn join_user_appends_in_join_order() {
    let mut channel = Channel::new(String::from("&local"));
    channel.join_user(7);
    channel.join_user(3);
    channel.join_user(5);
    assert_eq!(channel.clients(), &[7, 3, 5]);
}

#[test]
fn join_user_twice_keeps_one_entry() {
    let mut channel = Channel::new(String::from("#foo"));
    channel.join_user(1);
    channel.join_user(2);
    channel.join_user(1);
    assert_eq!(channel.clients(), &[1, 2]);
}

#[test]
fn has_client_tells_members_from_others() {
    let mut channel = Channel::new(String::from("#foo"));
    channel.join_user(1);
    assert!(channel.has_client(1));
    assert!(!channel.has_client(2));
}

#[test]
fn remove_user_keeps_the_order_of_the_rest() {
    let mut channel = Channel::new(String::from("#foo"));
    channel.join_user(1);
    channel.join_user(2);
    channel.join_user(3);
    channel.remove_user(2);
    assert_eq!(channel.clients(), &[1, 3]);
    channel.remove_user(9);
    assert_eq!(channel.clients(), &[1, 3]);
    channel.remove_user(1);
    channel.remove_user(3);
    assert!(channel.clients().is_empty());
}

#[test]
fn channel_names_start_with_hash_or_ampersand() {
    assert!(check_channel_name("#foo"));
    assert!(check_channel_name("&foo"));
    assert!(check_channel_name("#"));
    assert!(!check_channel_name("foo"));
    assert!(!check_channel_name(""));
    assert!(!check_channel_name("f#oo"));
}

#[test]
fn channel_ref_from_name_and_key() {
    assert_eq!(
        ChannelRef::from_pair(Some("#foo"), Some("secret")),
        Some(ChannelRef { name: String::from("#foo"), key: Some(String::from("secret")) })
    );
}

#[test]
fn channel_ref_from_name_only() {
    assert_eq!(
        ChannelRef::from_pair(Some("#foo"), None),
        Some(ChannelRef { name: String::from("#foo"), key: None })
    );
}

#[test]
fn channel_ref_from_key_only_is_refused() {
    assert_eq!(ChannelRef::from_pair(None, Some("secret")), None);
    assert_eq!(ChannelRef::from_pair(None, None), None);
}

#[test]
fn new_user_has_no_identity_yet() {
    let user = User::new(4, String::from("10.0.0.1:5000"));
    assert_eq!(user.client_id, 4);
    assert_eq!(user.host, "10.0.0.1:5000");
    assert_eq!(user.nickname, None);
    assert_eq!(user.username, None);
    assert_eq!(user.realname, None);
    assert!(!user.is_registered());
}

#[test]
fn user_is_registered_with_nickname_and_username() {
    let mut user = User::new(4, String::from("10.0.0.1:5000"));
    user.nickname = Some(String::from("alice"));
    assert!(!user.is_registered());
    user.username = Some(String::from("~alice"));
    assert!(user.is_registered());
}

#[test]
fn casemap_tokens() {
    assert_eq!(CaseMap::Ascii.to_string(), "ascii");
    assert_eq!(CaseMap::Rfc1459.to_string(), "rfc1459");
    assert_eq!(CaseMap::Rfc1459Strict.to_string(), "rfc1459-strict");
    assert_eq!(CaseMap::Rfc7613.to_string(), "rfc7613");
}

#[test]
fn default_config() {
    let config = ServerConfig::default();
    assert_eq!(config.name, "Myriad Devnet");
    assert_eq!(config.host, "127.0.0.1");
    assert_eq!(config.port, 6667);
    assert_eq!(config.motd, "Don't worry, it only seems kinky the first time.");
    assert_eq!(config.feat_awaylen, 255);
    assert_eq!(config.feat_casemap, CaseMap::Ascii);
    assert!(config.is_valid());
}

#[test]
fn config_defaults_for_optional_keys() {
    assert_eq!(ServerConfig::default_feat_awaylen(), 255);
    assert_eq!(ServerConfig::default_feat_casemap(), CaseMap::Ascii);
}

#[test]
fn config_addr_is_host_and_port() {
    let mut config = ServerConfig::default();
    config.host = String::from("irc.example.org");
    config.port = 6697;
    assert_eq!(config.addr(), ("irc.example.org", 6697));
}

#[test]
fn config_without_host_is_not_valid() {
    let mut config = ServerConfig::default();
    config.host = String::new();
    assert!(!config.is_valid());
}
