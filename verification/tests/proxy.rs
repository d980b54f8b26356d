use knot::config::{hydrate_config, Config, Server};
use knot::proxy::{Client, Endpoint, Event, ProxyState, Route};

fn addr(port: u16) -> Endpoint {
    Endpoint { ip: 0x7f000001, is_v6: false, port, flowinfo: 0, scope_id: 0 }
}

fn config() -> Config {
    Config {
        host: "0.0.0.0:30001".to_string(),
        player_limit: -1,
        servers: vec![
            ("creative".to_string(), Server { name: None, address: "127.0.0.1:30002".to_string() }),
            ("lobby".to_string(), Server { name: None, address: "127.0.0.1:30000".to_string() }),
        ],
    }
}

#[test]
fn hydrate_names_servers_by_key() {
    let mut c = config();
    hydrate_config(&mut c);
    assert_eq!(c.servers.len(), 2);
    assert_eq!(c.servers[0].0, "creative");
    assert_eq!(c.servers[0].1.name.as_deref(), Some("creative"));
    assert_eq!(c.servers[0].1.address, "127.0.0.1:30002");
    assert_eq!(c.servers[1].1.name.as_deref(), Some("lobby"));
    assert_eq!(c.host, "0.0.0.0:30001");
    assert_eq!(c.player_limit, -1);
}

#[test]
fn validate_requires_a_lobby() {
    let c = config();
    assert!(c.validate().is_ok());
    assert_eq!(c.lobby_address().as_deref(), Some("127.0.0.1:30000"));
    let mut c = config();
    c.servers.remove(1);
    assert!(c.validate().is_err());
    assert_eq!(c.lobby_address(), None);
}

#[test]
fn client_records_player_name() {
    let mut c = Client::new(addr(1));
    assert_eq!(c.player_name, "");
    c.set_player_name(&"bob".to_string());
    assert_eq!(c.player_name, "bob");
    assert_eq!(c.source_addr, addr(1));
}

fn init_datagram(name: &str) -> Vec<u8> {
    let mut v = vec![0x4f, 0x45, 0x74, 0x03, 0, 0, 0, 3, 0, 1, 1, 0, 2, 28, 0, 0, 0, 37, 0, 38, 0];
    v.push(name.len() as u8);
    v.extend_from_slice(name.as_bytes());
    v
}

fn chat_datagram(text: &str) -> Vec<u8> {
    let mut v = vec![0x4f, 0x45, 0x74, 0x03, 0, 0, 0, 3, 0, 2, 1, 0, 0x32, 0];
    v.push(text.len() as u8);
    for b in text.bytes() {
        v.push(0);
        v.push(b);
    }
    v
}

#[test]
fn first_datagram_opens_a_session_and_is_forwarded() {
    let mut s = ProxyState::new(-1);
    match s.handle_datagram(addr(1), &[1, 2, 3]) {
        Route::NewClient { payload, event: Event::Other } => assert_eq!(payload, vec![1, 2, 3]),
        other => panic!("{:?}", other),
    }
    assert_eq!(s.client_count(), 1);
    match s.handle_datagram(addr(1), &[1, 2, 3]) {
        Route::Forward { payload, event: Event::Other } => assert_eq!(payload, vec![1, 2, 3]),
        other => panic!("{:?}", other),
    }
    assert_eq!(s.client_count(), 1);
}

#[test]
fn first_datagram_that_joins_names_the_new_session() {
    let mut s = ProxyState::new(-1);
    let init = init_datagram("carol");
    match s.handle_datagram(addr(7), &init) {
        Route::NewClient { payload, event: Event::PlayerJoined { player_name } } => {
            assert_eq!(payload, init);
            assert_eq!(player_name, "carol");
        }
        other => panic!("{:?}", other),
    }
    let chat = chat_datagram("hi");
    match s.handle_datagram(addr(7), &chat) {
        Route::Forward { payload, event: Event::ChatMessage { player_name, message } } => {
            assert_eq!(payload, chat);
            assert_eq!(player_name, "carol");
            assert_eq!(message, "hi");
        }
        other => panic!("{:?}", other),
    }
}

#[test]
fn player_limit_refuses_new_addresses() {
    let mut s = ProxyState::new(1);
    assert!(matches!(s.handle_datagram(addr(1), &[0]), Route::NewClient { .. }));
    assert!(matches!(s.handle_datagram(addr(2), &[0]), Route::Refused));
    assert_eq!(s.client_count(), 1);
    let mut none = ProxyState::new(0);
    assert!(matches!(none.handle_datagram(addr(1), &[0]), Route::Refused));
    assert_eq!(none.client_count(), 0);
}

#[test]
fn join_and_chat() {
    let mut s = ProxyState::new(-1);
    let _ = s.handle_datagram(addr(1), &[0]);
    let init = init_datagram("alice");
    match s.handle_datagram(addr(1), &init) {
        Route::Forward { payload, event: Event::PlayerJoined { player_name } } => {
            assert_eq!(payload, init);
            assert_eq!(player_name, "alice");
        }
        other => panic!("{:?}", other),
    }
    let chat = chat_datagram("hello");
    match s.handle_datagram(addr(1), &chat) {
        Route::Forward { payload, event: Event::ChatMessage { player_name, message } } => {
            assert_eq!(payload, chat);
            assert_eq!(player_name, "alice");
            assert_eq!(message, "hello");
        }
        other => panic!("{:?}", other),
    }
    // Chat from a second client that never joined carries no name.
    let _ = s.handle_datagram(addr(2), &[0]);
    match s.handle_datagram(addr(2), &chat) {
        Route::Forward { event: Event::ChatMessage { player_name, .. }, .. } => {
            assert_eq!(player_name, "")
        }
        other => panic!("{:?}", other),
    }
}

#[test]
fn chat_is_forwarded_re_encoded() {
    let mut s = ProxyState::new(-1);
    let _ = s.handle_datagram(addr(1), &[0]);
    // Trailing bytes after the chat packet are not part of the re-encoding.
    let mut chat = chat_datagram("ok");
    chat.extend_from_slice(&[9, 9]);
    match s.handle_datagram(addr(1), &chat) {
        Route::Forward { payload, .. } => assert_eq!(payload, chat[..chat.len() - 2].to_vec()),
        other => panic!("{:?}", other),
    }
}

#[test]
fn default_config_matches_readme() {
    let value: toml::Value = toml::from_str(knot::config::DEFAULT_CONFIG_TOML).unwrap();
    assert_eq!(value["host"].as_str(), Some("0.0.0.0:30001"));
    assert_eq!(value["player_limit"].as_integer(), Some(-1));
    assert_eq!(value["servers"]["lobby"]["address"].as_str(), Some("127.0.0.1:30000"));
    assert!(knot::config::DEFAULT_CONFIG_TOML.starts_with("# knot config.toml\n"));
}

#[test]
fn validate_message() {
    let mut c = config();
    c.servers.clear();
    assert_eq!(c.validate(), Err("config.toml does not define [servers.lobby]".to_string()));
}
