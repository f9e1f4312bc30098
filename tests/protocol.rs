use br_punch::client::{find_game_pid, find_target_server, get_active_ports, join_url, plan_introduction, ClientAction};
use br_punch::directive::{open_message, parse_directive, parse_server_port, server_port_message, Directive};
use br_punch::fingerprint::{sha1, to_lower_hex};
use br_punch::rendezvous::{host_fingerprint, JoinReply, Registry};

const HOST_FP: &str = "3c8559afa7d2da5ff1c1b1c3f86dea9ba6bd9503";

#[test]
fn sha1_known_digests() {
    assert_eq!(sha1("Hello World!".to_string()), "2ef7bde608ce5404e97d5f042f95f89f1c232871");
    assert_eq!(sha1(String::new()), "da39a3ee5e6b4b0d3255bfef95601890afd80709");
    assert_eq!(sha1("1.2.3.4:7777".to_string()), HOST_FP);
}

#[test]
fn sha1_is_forty_lowercase_hex() {
    for s in ["", "a", "1.2.3.4:7777", "255.255.255.255:65535", "ünïcödé"] {
        let h = sha1(s.to_string());
        assert_eq!(h.len(), 40);
        assert!(h.chars().all(|c| c.is_ascii_digit() || ('a'..='f').contains(&c)));
    }
}

#[test]
fn hex_rendering() {
    assert_eq!(to_lower_hex(&[0x00, 0x0f, 0xa0, 0xff]), "000fa0ff");
    assert_eq!(to_lower_hex(&[]), "");
}

#[test]
fn directive_open_well_formed() {
    assert_eq!(parse_directive("open 5.6.7.8 51000"), Directive::Open { ip: [5, 6, 7, 8], port: 51000 });
    assert_eq!(parse_directive("open 0.0.0.0 0"), Directive::Open { ip: [0, 0, 0, 0], port: 0 });
    assert_eq!(
        parse_directive("open 255.255.255.255 65535"),
        Directive::Open { ip: [255, 255, 255, 255], port: 65535 }
    );
}

#[test]
fn directive_malformed() {
    for m in [
        "open foo bar",
        "open 1.2.3.4",
        "open 1.2.3.4 5 6",
        "open 256.1.1.1 5",
        "open 01.2.3.4 5",
        "open 1.2.3 5",
        "open 1.2.3.4 65536",
        "open 1.2.3.4 -1",
        "open  1.2.3.4 5",
        "open",
    ] {
        assert_eq!(parse_directive(m), Directive::Malformed, "{}", m);
    }
}

#[test]
fn directive_other_text_ignored() {
    for m in ["", "hello", "opened 1.2.3.4 5", "OPEN 1.2.3.4 5", "server_port:7777"] {
        assert_eq!(parse_directive(m), Directive::Ignored, "{}", m);
    }
}

#[test]
fn server_port_messages() {
    assert_eq!(server_port_message(7777), "server_port:7777");
    assert_eq!(server_port_message(0), "server_port:0");
    assert_eq!(parse_server_port("server_port:7777"), Some(7777));
    assert_eq!(parse_server_port("server_port:65535"), Some(65535));
    assert_eq!(parse_server_port("server_port:65536"), None);
    assert_eq!(parse_server_port("server_port:"), None);
    assert_eq!(parse_server_port("server_port:12a"), None);
    assert_eq!(parse_server_port("port:7777"), None);
    assert_eq!(parse_server_port(&server_port_message(4242)), Some(4242));
}

#[test]
fn open_message_text() {
    assert_eq!(open_message([5, 6, 7, 8], 51000), "open 5.6.7.8 51000");
    assert_eq!(open_message([10, 0, 200, 1], 7), "open 10.0.200.1 7");
    assert_eq!(
        parse_directive(&open_message([192, 168, 1, 20], 3333)),
        Directive::Open { ip: [192, 168, 1, 20], port: 3333 }
    );
}

#[test]
fn host_fingerprint_of_address() {
    assert_eq!(host_fingerprint([1, 2, 3, 4], 7777), HOST_FP);
}

#[test]
fn happy_path_join_is_delivered() {
    let mut reg = Registry::new();
    let fp = reg.connect_host([1, 2, 3, 4], "server_port:7777", 1);
    assert_eq!(fp.as_deref(), Some(HOST_FP));
    match reg.join(&HOST_FP.to_string(), [5, 6, 7, 8], 51000) {
        JoinReply::Deliver { session, text } => {
            assert_eq!(session, 1);
            assert_eq!(text, "open 5.6.7.8 51000");
        }
        JoinReply::NotFound => panic!("host should be registered"),
    }
}

#[test]
fn unknown_target_is_not_found() {
    let mut reg = Registry::new();
    reg.connect_host([1, 2, 3, 4], "server_port:7777", 1);
    let zero = "0".repeat(40);
    assert!(matches!(reg.join(&zero, [5, 6, 7, 8], 51000), JoinReply::NotFound));
    assert!(matches!(Registry::new().join(&zero, [5, 6, 7, 8], 51000), JoinReply::NotFound));
    assert!(matches!(reg.join(&HOST_FP.to_string(), [5, 6, 7, 8], 1), JoinReply::Deliver { session: 1, .. }));
}

#[test]
fn host_reregistration_delivers_to_latest() {
    let mut reg = Registry::new();
    reg.connect_host([1, 2, 3, 4], "server_port:7777", 1);
    reg.connect_host([1, 2, 3, 4], "server_port:7777", 2);
    assert_eq!(reg.lookup(&HOST_FP.to_string()), Some(2));
    // the displaced channel closing does not drop the new registration
    reg.unregister(1);
    assert!(matches!(reg.join(&HOST_FP.to_string(), [5, 6, 7, 8], 51000), JoinReply::Deliver { session: 2, .. }));
    reg.unregister(2);
    assert!(matches!(reg.join(&HOST_FP.to_string(), [5, 6, 7, 8], 51000), JoinReply::NotFound));
}

#[test]
fn bad_first_message_registers_nothing() {
    let mut reg = Registry::new();
    assert_eq!(reg.connect_host([1, 2, 3, 4], "hello", 1), None);
    assert_eq!(reg.connect_host([1, 2, 3, 4], "server_port:99999", 1), None);
    assert_eq!(reg.lookup(&HOST_FP.to_string()), None);
}

#[test]
fn two_hosts_kept_apart() {
    let mut reg = Registry::new();
    let a = reg.connect_host([1, 2, 3, 4], "server_port:7777", 1).unwrap();
    let b = reg.connect_host([1, 2, 3, 4], "server_port:7778", 2).unwrap();
    assert_ne!(a, b);
    assert_eq!(reg.lookup(&a), Some(1));
    assert_eq!(reg.lookup(&b), Some(2));
}

const LOG: &str = "[2020.01.01-00.00.00:000][  0]LogInit: Build: ok\n\
[2020.01.01-00.00.01:000][ 12]LogTemp: Attempting to connect to 1.2.3.4:7777\n\
[2020.01.01-00.00.02:000][ 13]LogNet: something else\n\
[2020.01.01-00.00.03:000][140]LogTemp: Attempting to connect to 9.8.7.6:7778\n\
[2020.01.01-00.00.04:000][141]LogTemp: Connected\n";

#[test]
fn target_is_last_attempt() {
    assert_eq!(find_target_server(LOG).as_deref(), Some("9.8.7.6:7778"));
}

#[test]
fn target_with_crlf_and_no_final_newline() {
    let log = "[a][ 1]LogTemp: Attempting to connect to 1.1.1.1:1\r\n[b][2]LogTemp: Attempting to connect to 2.2.2.2:2";
    assert_eq!(find_target_server(log).as_deref(), Some("2.2.2.2:2"));
    let log = "[b][2]LogTemp: Attempting to connect to 2.2.2.2:2\r\n";
    assert_eq!(find_target_server(log).as_deref(), Some("2.2.2.2:2"));
}

#[test]
fn no_target_in_log() {
    assert_eq!(find_target_server(""), None);
    assert_eq!(find_target_server("[x][ 1]LogTemp: Connected\n"), None);
    // frame number must have digits; time must not be empty; address must not be empty
    assert_eq!(find_target_server("[x][ ]LogTemp: Attempting to connect to 1.2.3.4:5"), None);
    assert_eq!(find_target_server("[][1]LogTemp: Attempting to connect to 1.2.3.4:5"), None);
    assert_eq!(find_target_server("[x][1]LogTemp: Attempting to connect to "), None);
    assert_eq!(find_target_server("x[x][1]LogTemp: Attempting to connect to 1.2.3.4:5"), None);
}

#[test]
fn target_with_unicode_digits_in_frame() {
    // ARABIC-INDIC DIGIT THREE is a decimal digit
    assert_eq!(
        find_target_server("[x][ \u{663}]LogTemp: Attempting to connect to a:1").as_deref(),
        Some("a:1")
    );
    // ROMAN NUMERAL THREE is numeric but not a decimal digit
    assert_eq!(find_target_server("[x][\u{2162}]LogTemp: Attempting to connect to a:1"), None);
}

#[test]
fn target_with_brackets_in_time() {
    assert_eq!(
        find_target_server("[a][b][ 7]LogTemp: Attempting to connect to host:1").as_deref(),
        Some("host:1")
    );
}

#[test]
fn no_target_client_sends_nothing() {
    assert!(matches!(plan_introduction(None, &vec![5000]), ClientAction::NoTarget));
    assert!(matches!(plan_introduction(find_target_server("nothing here\n"), &vec![5000]), ClientAction::NoTarget));
}

#[test]
fn multiple_game_sockets_send_nothing() {
    assert!(matches!(
        plan_introduction(Some("1.2.3.4:7777".to_string()), &vec![5000, 5001]),
        ClientAction::PortCount(2)
    ));
    assert!(matches!(plan_introduction(Some("1.2.3.4:7777".to_string()), &vec![]), ClientAction::PortCount(0)));
}

#[test]
fn single_socket_joins() {
    match plan_introduction(Some("1.2.3.4:7777".to_string()), &vec![51000]) {
        ClientAction::Join { target, port } => {
            assert_eq!(target, "1.2.3.4:7777");
            assert_eq!(port, 51000);
        }
        other => panic!("unexpected {:?}", other),
    }
}

#[test]
fn join_url_text() {
    assert_eq!(
        join_url("104.155.180.165:6923", "1.2.3.4:7777".to_string(), 51000),
        format!("http://104.155.180.165:6923/api/join?target={}&port=51000", HOST_FP)
    );
}

#[test]
fn game_process_found() {
    let procs = vec![
        (10u32, "explorer.exe".to_string()),
        (20u32, "BrickadiaClient-Win64-Shipping.exe".to_string()),
        (30u32, "Brickadia.exe".to_string()),
    ];
    assert_eq!(find_game_pid(&procs), Some(20));
    assert_eq!(find_game_pid(&vec![(1u32, "brickadia".to_string())]), None);
    assert_eq!(find_game_pid(&vec![]), None);
}

#[test]
fn game_ports_selected() {
    let sockets = vec![(5000u16, vec![1u32, 2]), (5001u16, vec![3u32]), (5002u16, vec![2u32]), (5003u16, vec![])];
    assert_eq!(get_active_ports(&sockets, 2), vec![5000, 5002]);
    assert_eq!(get_active_ports(&sockets, 3), vec![5001]);
    assert_eq!(get_active_ports(&sockets, 9), Vec::<u16>::new());
}
