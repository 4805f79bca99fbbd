use iroh::{EndpointAddr, SecretKey};
use iroh_tickets::endpoint::EndpointTicket;
use iroh_tickets::Ticket;

use runde::base32::{decode, encode};
use runde::env_file::custom_relay_url;
use runde::peer::peer_label;
use runde::relay::{build_relay_mode, relay_mode_for, try_relay_mode, RelayMode};
use runde::form::Form;
use runde::screen::can_be_shown;
use runde::ticket::{host_ticket, read_ticket, reads_back};
use runde::tunnel::{JoinAction, JoinEvent, Status, TunnelState, ALPN, LOOPBACK};

fn address() -> EndpointAddr {
    EndpointAddr::new(SecretKey::from_bytes(&[7; 32]).public())
        .with_relay_url("https://relay.example.com.".parse().unwrap())
        .with_ip_addr("127.0.0.1:1024".parse().unwrap())
}

fn bytes(text: &str) -> Vec<u8> {
    match read_ticket(text) {
        Ok(bytes) => bytes,
        Err(_) => panic!("this text is a ticket"),
    }
}

#[test]
fn a_ticket_goes_from_host_to_friend() {
    let ticket = EndpointTicket::new(address());
    let handed_out = host_ticket(&ticket.encode_bytes());
    assert_eq!(handed_out, ticket.to_string());
    assert!(handed_out.starts_with("endpoint"));
    let arrived = bytes(&handed_out);
    assert_eq!(arrived, ticket.encode_bytes());
    let called: EndpointAddr = EndpointTicket::decode_bytes(&arrived).unwrap().into();
    assert_eq!(called, address());
}

#[test]
fn a_host_shows_the_ticket_that_a_friend_reads() {
    let sent = EndpointTicket::new(address()).encode_bytes();
    let mut host: TunnelState<u8> = TunnelState::new();
    let ticket = host.host_opened(&sent);
    assert!(host.status == Status::HostWaiting { ticket: ticket.clone() });

    let mut form = Form::new();
    form.ticket_in = format!("\n  {}\t", ticket);
    let mut friend: TunnelState<u8> = TunnelState::new();
    let request = form.start_join(&mut friend, 1).unwrap();
    assert_eq!(request.ticket, ticket);
    assert_eq!(friend.join_ticket(&request.ticket), Some(sent));
    assert!(friend.status == Status::JoinConnecting);
}

#[test]
fn a_friend_without_a_ticket_is_told() {
    let mut friend: TunnelState<u8> = TunnelState::new();
    assert!(friend.join_ticket("endpoint").is_none());
    assert!(friend.status == Status::Error("Неверный формат ticket".to_string()));
}

#[test]
fn base32_is_that_of_the_ticket_library() {
    let id = SecretKey::from_bytes(&[7; 32]).public();
    let mut addr = EndpointAddr::new(id);
    for port in [1024u16, 1025, 1026, 1027, 1028, 1029] {
        let ticket = EndpointTicket::new(addr.clone());
        assert_eq!(host_ticket(&ticket.encode_bytes()), ticket.to_string());
        addr = addr.with_ip_addr(format!("127.0.0.1:{}", port).parse().unwrap());
        let relay = format!("https://{}.example.com.", "r".repeat(port as usize - 1023));
        addr = addr.with_relay_url(relay.parse().unwrap());
    }
}

#[test]
fn base32_of_few_bytes() {
    for (plain, written) in [
        ("", ""),
        ("f", "my"),
        ("fo", "mzxq"),
        ("foo", "mzxw6"),
        ("foob", "mzxw6yq"),
        ("fooba", "mzxw6ytb"),
        ("foobar", "mzxw6ytboi"),
    ] {
        assert_eq!(encode(plain.as_bytes()), written);
        let small: Vec<char> = written.chars().collect();
        assert_eq!(decode(&small), plain.as_bytes());
        let capital: Vec<char> = written.to_uppercase().chars().collect();
        assert_eq!(decode(&capital), plain.as_bytes());
    }
    assert_eq!(encode(&[0xff, 0x00, 0x80, 0x01, 0x7f]), "74aiaal7");
}

#[test]
fn tickets_may_be_in_capitals() {
    let sent = EndpointTicket::new(address()).encode_bytes();
    let handed_out = host_ticket(&sent);
    let capitals = format!("endpoint{}", handed_out["endpoint".len()..].to_uppercase());
    assert_eq!(bytes(&capitals), sent);
    assert!(read_ticket(&handed_out.to_uppercase()).is_err());
}

#[test]
fn a_ticket_carries_the_bytes_that_it_was_made_of() {
    let mut longer = EndpointTicket::new(address()).encode_bytes();
    assert!(reads_back(&longer, &host_ticket(&longer)));
    longer.push(0);
    let handed_out = host_ticket(&longer);
    assert_eq!(bytes(&handed_out), longer);
    assert!(!reads_back(&longer, &handed_out));
    longer.pop();
    assert!(reads_back(&longer, &handed_out));
    assert!(!reads_back(&longer, "endpoint"));
}

/// `bytes` with the first `old` in them, behind its length, replaced by `new`, behind its own.
fn with_text(bytes: &[u8], old: &str, new: &str) -> Vec<u8> {
    let k = bytes.windows(old.len()).position(|w| w == old.as_bytes()).unwrap();
    assert_eq!(bytes[k - 1] as usize, old.len());
    let mut out = bytes[..k - 1].to_vec();
    out.push(new.len() as u8);
    out.extend_from_slice(new.as_bytes());
    out.extend_from_slice(&bytes[k + old.len()..]);
    out
}

#[test]
fn an_address_may_change_when_it_is_written_again() {
    let relay = "https://relay.example.com./";
    let plain = EndpointTicket::new(address()).encode_bytes();
    let odd = with_text(&plain, relay, "file:C:\t..");
    let once = with_text(&plain, relay, "file:///C:/..");
    let twice = with_text(&plain, relay, "file:///C:/");

    let handed_out = host_ticket(&odd);
    assert_eq!(bytes(&handed_out), odd);
    let called = EndpointTicket::decode_bytes(&bytes(&handed_out)).unwrap();
    assert_eq!(called, handed_out.parse::<EndpointTicket>().unwrap());
    assert!(reads_back(&once, &handed_out));
    assert!(!reads_back(&odd, &handed_out));

    assert_eq!(called.to_string(), host_ticket(&once));
    assert_eq!(bytes(&host_ticket(&once)), once);
    assert!(!reads_back(&once, &host_ticket(&once)));
    assert!(reads_back(&twice, &host_ticket(&once)));
    assert!(reads_back(&twice, &host_ticket(&twice)));
}

#[test]
fn a_host_shows_addresses_that_only_their_scope_tells_apart() {
    let addr = EndpointAddr::new(SecretKey::from_bytes(&[7; 32]).public())
        .with_ip_addr("[fe80::1%1]:1024".parse().unwrap())
        .with_ip_addr("[fe80::1%2]:1024".parse().unwrap());
    let ticket = EndpointTicket::new(addr);
    let sent = ticket.encode_bytes();
    let mut host: TunnelState<u8> = TunnelState::new();
    assert_eq!(host.host_opened(&sent), ticket.to_string());
    assert_eq!(bytes(&ticket.to_string()), sent);
    assert!(!reads_back(&sent, &ticket.to_string()));
}

#[test]
fn tickets_are_small_letters_and_digits() {
    for c in host_ticket(&EndpointTicket::new(address()).encode_bytes()).chars() {
        assert!(c.is_ascii_lowercase() || ('2'..='7').contains(&c));
    }
}

#[test]
fn what_is_no_ticket_is_refused() {
    for s in ["", "endpoint", "endpoint1", "nodeaaaa", "hello"] {
        assert!(read_ticket(s).is_err(), "{:?}", s);
    }
    assert!(read_ticket(&host_ticket(&[])).is_err());
    assert!(read_ticket(&host_ticket(&[9, 9, 9])).is_err());
}

#[test]
fn labels_are_those_of_the_network_library() {
    for seed in [0u8, 1, 7, 255] {
        let id = SecretKey::from_bytes(&[seed; 32]).public();
        assert_eq!(peer_label(id.as_bytes()), id.fmt_short().to_string());
    }
}

#[test]
fn labels_are_the_first_bytes() {
    let mut id = [0u8; 32];
    id[0] = 0xae;
    id[1] = 0x58;
    id[2] = 0xff;
    id[3] = 0x09;
    id[4] = 0x33;
    assert_eq!(peer_label(&id), "ae58ff0933");
    id[5] = 1;
    assert_eq!(peer_label(&id), "ae58ff0933");
    id[4] = 0x34;
    assert_eq!(peer_label(&id), "ae58ff0934");
}

#[test]
fn no_address_means_the_usual_relays() {
    assert!(matches!(build_relay_mode(""), RelayMode::Default));
    assert!(matches!(try_relay_mode(""), Some(RelayMode::Default)));
}

#[test]
fn an_address_means_that_relay() {
    match build_relay_mode("https://Relay.Example.com") {
        RelayMode::Custom(url) => assert_eq!(url, "https://relay.example.com/"),
        RelayMode::Default => panic!("an address was given"),
    }
    match try_relay_mode("https://Relay.Example.com") {
        Some(RelayMode::Custom(url)) => assert_eq!(url, "https://relay.example.com/"),
        _ => panic!("an address was given"),
    }
}

#[test]
fn what_is_no_address_is_refused() {
    assert!(try_relay_mode("not a url").is_none());
    assert!(try_relay_mode("relay.example.com").is_none());
}

#[test]
fn the_choice_of_relays_follows_the_reading() {
    assert!(matches!(relay_mode_for("", None), Some(RelayMode::Default)));
    assert!(matches!(relay_mode_for("", Some("u".to_string())), Some(RelayMode::Default)));
    assert!(relay_mode_for("x", None).is_none());
    match relay_mode_for("x", Some("u".to_string())) {
        Some(RelayMode::Custom(url)) => assert_eq!(url, "u"),
        _ => panic!("an address was given"),
    }
}

#[test]
fn settings_are_read() {
    assert_eq!(custom_relay_url("CUSTOM_RELAY_URL=https://a.b/"), "https://a.b/");
    assert_eq!(custom_relay_url("  CUSTOM_RELAY_URL =  \"https://a.b/?x=1\" \r\n"), "https://a.b/?x=1");
    assert_eq!(custom_relay_url("CUSTOM_RELAY_URL='u'"), "u");
    assert_eq!(custom_relay_url("CUSTOM_RELAY_URL=\"'u'\""), "u");
    assert_eq!(custom_relay_url("CUSTOM_RELAY_URL='\"u\"'"), "\"u\"");
    assert_eq!(custom_relay_url("CUSTOM_RELAY_URL="), "");
}

#[test]
fn the_last_setting_wins() {
    let content = "CUSTOM_RELAY_URL=a\nOTHER=x\nCUSTOM_RELAY_URL=b\n";
    assert_eq!(custom_relay_url(content), "b");
}

#[test]
fn other_lines_do_not_matter() {
    assert_eq!(custom_relay_url(""), "");
    assert_eq!(custom_relay_url("# CUSTOM_RELAY_URL=a"), "");
    assert_eq!(custom_relay_url("CUSTOM_RELAY_URL"), "");
    assert_eq!(custom_relay_url("X=1\n\n#c\nCUSTOM_RELAY_URL=a\n  \n# b\nY"), "a");
    assert_eq!(custom_relay_url("custom_relay_url=a"), "");
}

#[test]
fn hosts_of_labelled_peers_can_be_shown() {
    let mut host: TunnelState<u8> = TunnelState::new();
    host.status = Status::HostWaiting { ticket: "t".to_string() };
    for k in 0u8..3 {
        let peer = peer_label(&[k; 32]);
        host.peer_joined(&peer);
        assert!(can_be_shown(&host.status));
    }
    host.peer_left(&peer_label(&[1; 32]), &"t".to_string());
    assert!(can_be_shown(&host.status));
    assert!(
        host.status
            == Status::HostConnected {
                ticket: "t".to_string(),
                peers: vec!["0000000000".to_string(), "0202020202".to_string()],
            }
    );
}

#[test]
fn a_pasted_ticket_leads_to_forwarded_clients() {
    let sent = EndpointTicket::new(address()).encode_bytes();
    let mut form = Form::new();
    form.ticket_in = format!(" {}\r\n", host_ticket(&sent));
    form.local_port = "7777".to_string();
    let mut friend: TunnelState<u8> = TunnelState::new();
    let request = form.start_join(&mut friend, 1).unwrap();
    let port = request.local_port;
    assert_eq!(friend.join_ticket(&request.ticket), Some(sent));
    for (event, action) in [
        (JoinEvent::TicketRead, JoinAction::OpenEndpoint),
        (JoinEvent::EndpointOpened, JoinAction::Connect),
    ] {
        assert_eq!(friend.join_step(&event, port), action);
        assert!(friend.status == Status::JoinConnecting);
    }
    for (event, action) in [
        (JoinEvent::Connected, JoinAction::BindPort { port: 7777 }),
        (JoinEvent::PortBound, JoinAction::AcceptClient),
        (JoinEvent::ClientAccepted, JoinAction::ForwardClient),
        (JoinEvent::ClientAccepted, JoinAction::ForwardClient),
        (JoinEvent::StopRequested, JoinAction::Close),
    ] {
        assert_eq!(friend.join_step(&event, port), action);
        assert!(friend.status == Status::JoinConnected);
    }
    assert_eq!(ALPN.as_bytes(), b"runde/tcp-proxy/0");
    assert_eq!(LOOPBACK, "127.0.0.1");
}
