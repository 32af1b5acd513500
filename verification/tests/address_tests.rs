use chat::{ClientManager, Message, ServerDetails, IP};

#[test]
fn get_ipv4_of_four_octets() {
    let ip = IP::V4(127, 0, 0, 1);
    assert_eq!(ip.get_ipv4(), Some((127, 0, 0, 1)));
    assert_eq!(ip.get_ipv6(), None);
}

#[test]
fn get_ipv6_of_six_octets() {
    let ip = IP::V6(1, 2, 3, 4, 5, 6);
    assert_eq!(ip.get_ipv6(), Some((1, 2, 3, 4, 5, 6)));
    assert_eq!(ip.get_ipv4(), None);
}

#[test]
fn ipv4_spelled_with_dots() {
    let sd = ServerDetails::new_ipv4(127, 0, 0, 1, 2098);
    assert_eq!(sd.ip_to_string(), Some("127.0.0.1".to_string()));
    assert_eq!(sd.port_to_string(), Some("2098".to_string()));
}

#[test]
fn ipv6_spelled_with_dots() {
    let sd = ServerDetails::new_ipv6(10, 0, 255, 7, 99, 100, 0);
    assert_eq!(sd.ip_to_string(), Some("10.0.255.7.99.100".to_string()));
    assert_eq!(sd.port_to_string(), Some("0".to_string()));
}

#[test]
fn largest_port_and_octets() {
    let sd = ServerDetails::new_ipv4(255, 255, 255, 255, 65535);
    assert_eq!(sd.ip_to_string(), Some("255.255.255.255".to_string()));
    assert_eq!(sd.port_to_string(), Some("65535".to_string()));
}

#[test]
fn socket_address_joins_ip_and_port() {
    let sd = ServerDetails::new_ipv4(192, 168, 1, 20, 8080);
    assert_eq!(sd.socket_address(), "192.168.1.20:8080");
    let sd = ServerDetails::new_ipv6(1, 2, 3, 4, 5, 6, 7);
    assert_eq!(sd.socket_address(), "1.2.3.4.5.6:7");
}

#[test]
fn spelling_matches_format() {
    for (a, b, c, d, p) in [(0u8, 9u8, 10u8, 99u8, 100u16), (100, 101, 199, 200, 9999), (1, 2, 3, 4, 10000)] {
        let sd = ServerDetails::new_ipv4(a, b, c, d, p);
        assert_eq!(sd.ip_to_string().unwrap(), format!("{}.{}.{}.{}", a, b, c, d));
        assert_eq!(sd.port_to_string().unwrap(), format!("{}", p));
    }
}

#[test]
fn client_manager_keeps_server() {
    let cm = ClientManager::new(IP::V4(127, 0, 0, 1), 2098);
    assert_eq!(cm.server_info().socket_address(), "127.0.0.1:2098");
    let cm = ClientManager::new(IP::V6(1, 1, 2, 3, 5, 8), 13);
    assert_eq!(cm.server_info().ip_to_string(), Some("1.1.2.3.5.8".to_string()));
    assert_eq!(cm.server_info().port_to_string(), Some("13".to_string()));
}

#[test]
fn message_default_is_empty() {
    let m = Message::default();
    assert_eq!(m.text(), "");
    assert_eq!(m.title(), "");
    assert_eq!(m.date_time(), "");
}

#[test]
fn message_new_keeps_text_and_title() {
    let m = Message::new("hello there", "greeting");
    assert_eq!(m.text(), "hello there");
    assert_eq!(m.title(), "greeting");
    assert_eq!(m.date_time(), "");
}

#[test]
fn address_text_reads_back() {
    for ip in [IP::V4(0, 10, 200, 255), IP::V6(1, 22, 133, 4, 0, 99)] {
        let sd = match ip {
            IP::V4(a, b, c, d) => ServerDetails::new_ipv4(a, b, c, d, 1),
            IP::V6(a, b, c, d, e, f) => ServerDetails::new_ipv6(a, b, c, d, e, f, 1),
        };
        let parts: Vec<u8> = sd.ip_to_string().unwrap().split('.').map(|x| x.parse::<u8>().unwrap()).collect();
        match ip {
            IP::V4(a, b, c, d) => assert_eq!(parts, vec![a, b, c, d]),
            IP::V6(a, b, c, d, e, f) => assert_eq!(parts, vec![a, b, c, d, e, f]),
        }
    }
}

#[test]
fn outgoing_line_drops_trailing_white_space() {
    for typed in ["send hi bob\n", "exit\r\n", "  lead  \t \n", "", "   ", "x\u{3000}", "no_end"] {
        assert_eq!(chat::outgoing_line(typed), typed.trim_end());
    }
}

#[test]
fn only_exit_ends_session() {
    assert!(chat::ends_session("exit!"));
    assert!(!chat::ends_session("exit! "));
    assert!(!chat::ends_session("exit"));
    assert!(!chat::ends_session("Logged out !"));
}
