use privy::client::connection::ClientInfo;
use privy::messages::Messages;
use privy::roles::Roles;
use privy::server::client_map::ClientMap;
use privy::server::manager::{ServerAction, ServerManager, SEND_INTERVAL_NANOS};
use privy::token::{SharedToken, Token};

fn tok(s: &str) -> Token {
    Token(s.to_string())
}

fn conn(name: &str, id: u64) -> SharedToken {
    SharedToken { token: tok(name), id }
}

/// Each test connection below is numbered after its token's first letter.
fn own(name: &str) -> SharedToken {
    conn(name, name.as_bytes()[0] as u64)
}

fn client(addr: &str, role: Roles, last_sent: u64) -> ClientInfo {
    ClientInfo { addr: addr.to_string(), role, last_sent }
}

fn connect(m: &mut ServerManager, name: &str, addr: &str, role: Roles) -> Vec<ServerAction> {
    m.handle_message(Messages::ClientConnected { client: client(addr, role, 0), token: own(name) }, 0)
}

fn sorted(recipients: &[Token]) -> Vec<String> {
    let mut v: Vec<String> = recipients.iter().map(|t| t.0.clone()).collect();
    v.sort();
    v
}

fn expect_print(a: &ServerAction, text: &str) {
    match a {
        ServerAction::Print(s) => assert_eq!(s, text),
        other => panic!("expected a print, got {:?}", other),
    }
}

fn expect_error(a: &ServerAction, text: &str) {
    match a {
        ServerAction::PrintError(s) => assert_eq!(s, text),
        other => panic!("expected an error line, got {:?}", other),
    }
}

fn expect_broadcast(a: &ServerAction, to: &[&str], text: &str) {
    match a {
        ServerAction::Broadcast { recipients, message } => {
            let mut want: Vec<String> = to.iter().map(|s| s.to_string()).collect();
            want.sort();
            assert_eq!(sorted(recipients), want);
            assert_eq!(message, &text.as_bytes().to_vec());
        }
        other => panic!("expected a broadcast, got {:?}", other),
    }
}

#[test]
fn new_server_is_empty() {
    let m = ServerManager::new(tok("S"));
    assert_eq!(m.server_token, tok("S"));
    assert_eq!(m.clients.len(), 0);
    assert_eq!(m.logs.len(), 0);
    let d = ServerManager::default();
    assert_eq!(d.server_token, tok(""));
    assert_eq!(d.clients.len(), 0);
}

#[test]
fn joining_is_announced_to_the_others() {
    let mut m = ServerManager::new(tok("S"));
    let a = connect(&mut m, "A", "1.1.1.1:1", Roles::Admin);
    assert_eq!(a.len(), 2);
    expect_print(&a[0], " [HIDDEN] Successfully joined the server.");
    expect_broadcast(&a[1], &[], "[HIDDEN] Successfully joined the server.\n");
    let b = connect(&mut m, "B", "2.2.2.2:2", Roles::User);
    expect_broadcast(&b[1], &["A"], "[HIDDEN] Successfully joined the server.\n");
    let c = connect(&mut m, "C", "3.3.3.3:3", Roles::User);
    expect_broadcast(&c[1], &["A", "B"], "[HIDDEN] Successfully joined the server.\n");
    assert_eq!(m.clients.len(), 3);
}

#[test]
fn joining_again_under_a_known_token_replaces_quietly() {
    let mut m = ServerManager::new(tok("S"));
    connect(&mut m, "A", "1.1.1.1:1", Roles::Admin);
    let again = connect(&mut m, "A", "9.9.9.9:9", Roles::User);
    assert!(again.is_empty());
    assert_eq!(m.clients.len(), 1);
    let c = m.clients.get(&tok("A")).unwrap();
    assert_eq!(c.addr, "9.9.9.9:9");
    assert_eq!(c.role, Roles::User);
}

#[test]
fn leaving_is_announced_to_those_who_stay() {
    let mut m = ServerManager::new(tok("S"));
    connect(&mut m, "A", "1.1.1.1:1", Roles::Admin);
    connect(&mut m, "B", "2.2.2.2:2", Roles::User);
    connect(&mut m, "C", "3.3.3.3:3", Roles::User);
    let a = m.handle_message(
        Messages::ClientDisconnected { client: client("x", Roles::User, 0), token: own("B") },
        10,
    );
    assert_eq!(a.len(), 2);
    expect_print(&a[0], " [HIDDEN] disconnected");
    expect_broadcast(&a[1], &["A", "C"], " [HIDDEN] disconnected\n");
    assert!(!m.clients.contains_key(&tok("B")));
    assert_eq!(m.clients.len(), 2);
}

#[test]
fn an_unknown_client_leaving_changes_nothing() {
    let mut m = ServerManager::new(tok("S"));
    connect(&mut m, "A", "1.1.1.1:1", Roles::Admin);
    let a = m.handle_message(
        Messages::ClientDisconnected { client: client("x", Roles::User, 0), token: own("Z") },
        10,
    );
    assert!(a.is_empty());
    assert_eq!(m.clients.len(), 1);
}

#[test]
fn leaving_undoes_joining() {
    let mut m = ServerManager::new(tok("S"));
    connect(&mut m, "A", "1.1.1.1:1", Roles::Admin);
    connect(&mut m, "B", "2.2.2.2:2", Roles::User);
    let a = m.handle_message(
        Messages::ClientDisconnected { client: client("2.2.2.2:2", Roles::User, 0), token: own("B") },
        10,
    );
    expect_broadcast(&a[1], &["A"], " [HIDDEN] disconnected\n");
    assert_eq!(m.clients.len(), 1);
    assert!(m.clients.contains_key(&tok("A")));
    assert!(!m.clients.contains_key(&tok("B")));
}

#[test]
fn an_accepted_message_is_logged_printed_and_relayed() {
    let mut m = ServerManager::new(tok("S"));
    connect(&mut m, "A", "1.1.1.1:1", Roles::Admin);
    connect(&mut m, "B", "2.2.2.2:2", Roles::User);
    let now = 5 * SEND_INTERVAL_NANOS;
    let a = m.handle_message(Messages::NewMessage { token: own("B"), message: b"hi\n".to_vec() }, now);
    assert_eq!(a.len(), 2);
    expect_print(&a[0], "Private(2.2.2.2:2): [HIDDEN]\n");
    expect_broadcast(&a[1], &["A"], "Private(2.2.2.2:2): [HIDDEN]\n");
    assert_eq!(m.logs.len(), 1);
    let (t, bytes) = m.logs.get(0);
    assert_eq!(t, &tok("B"));
    assert_eq!(bytes, &b"Private(2.2.2.2:2): [HIDDEN]\n".to_vec());
    assert_eq!(m.clients.get(&tok("B")).unwrap().last_sent, now);
}

#[test]
fn a_message_too_soon_after_the_last_is_refused() {
    let mut m = ServerManager::new(tok("S"));
    connect(&mut m, "A", "1.1.1.1:1", Roles::Admin);
    let t1 = 3 * SEND_INTERVAL_NANOS;
    let first = m.handle_message(Messages::NewMessage { token: own("A"), message: b"one".to_vec() }, t1);
    assert_eq!(first.len(), 2);
    let second = m.handle_message(
        Messages::NewMessage { token: own("A"), message: b"two".to_vec() },
        t1 + SEND_INTERVAL_NANOS - 1,
    );
    assert_eq!(second.len(), 1);
    expect_error(&second[0], "Client is sending messages too fast");
    assert_eq!(m.logs.len(), 1);
    assert_eq!(m.clients.get(&tok("A")).unwrap().last_sent, t1);
    let third = m.handle_message(
        Messages::NewMessage { token: own("A"), message: b"three".to_vec() },
        t1 + SEND_INTERVAL_NANOS,
    );
    assert_eq!(third.len(), 2);
    assert_eq!(m.logs.len(), 2);
}

#[test]
fn a_message_right_after_joining_is_refused() {
    let mut m = ServerManager::new(tok("S"));
    m.handle_message(
        Messages::ClientConnected { client: client("1.1.1.1:1", Roles::User, 1_000), token: own("A") },
        1_000,
    );
    let a = m.handle_message(Messages::NewMessage { token: own("A"), message: b"x".to_vec() }, 1_500);
    expect_error(&a[0], "Client is sending messages too fast");
}

#[test]
fn a_clock_that_goes_back_counts_as_too_soon() {
    let mut m = ServerManager::new(tok("S"));
    m.handle_message(
        Messages::ClientConnected {
            client: client("1.1.1.1:1", Roles::User, 10 * SEND_INTERVAL_NANOS),
            token: own("A"),
        },
        0,
    );
    let a = m.handle_message(Messages::NewMessage { token: own("A"), message: b"x".to_vec() }, 0);
    expect_error(&a[0], "Client is sending messages too fast");
}

#[test]
fn a_message_that_is_not_text_is_reported() {
    let mut m = ServerManager::new(tok("S"));
    connect(&mut m, "A", "1.1.1.1:1", Roles::Admin);
    let a = m.handle_message(
        Messages::NewMessage { token: own("A"), message: vec![0xff, 0xfe] },
        10 * SEND_INTERVAL_NANOS,
    );
    assert_eq!(a.len(), 1);
    expect_error(&a[0], "couldn't convert message to String: invalid utf-8 sequence of 1 bytes from index 0");
    assert_eq!(m.logs.len(), 0);
    let b = m.handle_message(
        Messages::NewMessage { token: own("unknown"), message: vec![0x61, 0xc3] },
        10 * SEND_INTERVAL_NANOS,
    );
    assert_eq!(b.len(), 1);
    expect_error(&b[0], "couldn't convert message to String: incomplete utf-8 byte sequence from index 1");
    assert_eq!(m.clients.len(), 1);
}

#[test]
fn a_second_connection_under_a_known_token_hears_itself() {
    let mut m = ServerManager::new(tok("S"));
    m.handle_message(Messages::ClientConnected { client: client("a1", Roles::Admin, 0), token: conn("T", 1) }, 0);
    m.handle_message(Messages::ClientConnected { client: client("b", Roles::User, 0), token: conn("U", 2) }, 0);
    let again = m.handle_message(
        Messages::ClientConnected { client: client("a2", Roles::User, 0), token: conn("T", 3) },
        0,
    );
    assert!(again.is_empty());
    let now = 10 * SEND_INTERVAL_NANOS;
    let a = m.handle_message(Messages::NewMessage { token: conn("T", 3), message: b"x".to_vec() }, now);
    assert_eq!(a.len(), 2);
    expect_print(&a[0], "Private(a2): [HIDDEN]\n");
    expect_broadcast(&a[1], &["T", "U"], "Private(a2): [HIDDEN]\n");
    let b = m.handle_message(
        Messages::NewMessage { token: conn("T", 1), message: b"y".to_vec() },
        now + SEND_INTERVAL_NANOS,
    );
    expect_broadcast(&b[1], &["U"], "Private(a2): [HIDDEN]\n");
}

#[test]
fn a_manager_copy_is_independent() {
    let mut m = ServerManager::new(tok("S"));
    connect(&mut m, "A", "1.1.1.1:1", Roles::Admin);
    let copy = m.clone();
    connect(&mut m, "B", "2.2.2.2:2", Roles::User);
    assert_eq!(copy.clients.len(), 1);
    assert_eq!(m.clients.len(), 2);
    assert_eq!(copy.server_token, tok("S"));
    assert_eq!(copy.clients.get(&tok("A")).unwrap().addr, "1.1.1.1:1");
}

#[test]
fn broadcast_skips_the_sender() {
    let m = ServerManager::new(tok("S"));
    let mut clients = ClientMap::new();
    clients.insert(own("A"), client("a", Roles::User, 0));
    clients.insert(own("B"), client("b", Roles::User, 0));
    clients.insert(own("C"), client("c", Roles::User, 0));
    let a = m.broadcast(&clients, &own("B"), vec![7, 8]);
    match a {
        ServerAction::Broadcast { recipients, message } => {
            assert_eq!(sorted(&recipients), vec!["A".to_string(), "C".to_string()]);
            assert_eq!(message, vec![7, 8]);
        }
        _ => panic!("expected a broadcast"),
    }
}

#[test]
fn client_map_keeps_one_entry_per_token() {
    let mut map = ClientMap::new();
    assert_eq!(map.len(), 0);
    assert!(map.insert(conn("A", 1), client("a", Roles::Admin, 1)).is_none());
    assert!(map.insert(conn("B", 2), client("b", Roles::User, 2)).is_none());
    let prev = map.insert(conn("A", 9), client("a2", Roles::User, 3)).unwrap();
    assert_eq!(prev.addr, "a");
    assert_eq!(map.len(), 2);
    assert_eq!(map.get(&tok("A")).unwrap().addr, "a2");
    map.set_last_sent(&tok("B"), 99);
    assert_eq!(map.get(&tok("B")).unwrap().last_sent, 99);
    map.remove(&tok("A"));
    assert!(map.get(&tok("A")).is_none());
    map.remove(&tok("A"));
    assert_eq!(map.len(), 1);
    assert_eq!(sorted(&map.tokens_except(&conn("Z", 7))), vec!["B".to_string()]);
    assert!(map.tokens_except(&conn("B", 2)).is_empty());
    assert_eq!(sorted(&map.tokens_except(&conn("B", 5))), vec!["B".to_string()]);
    let copy = map.clone();
    assert_eq!(copy.len(), 1);
    assert_eq!(copy.get(&tok("B")).unwrap().last_sent, 99);
}

#[test]
fn client_record_copies() {
    let c = client("a", Roles::Admin, 4);
    let d = c.duplicate();
    assert_eq!(d.addr, "a");
    assert_eq!(d.role, Roles::Admin);
    assert_eq!(d.last_sent, 4);
}
