use privy::client::connection::{message_for_read, ClientInfo};
use privy::client::outgoing::outgoing_line;
use privy::messages::Messages;
use privy::roles::Roles;
use privy::server::listener::{server_address, RoleAssigner, PORT};
use privy::token::{SharedToken, Token};

fn st(name: &str) -> SharedToken {
    SharedToken { token: Token(name.to_string()), id: 3 }
}

fn info() -> ClientInfo {
    ClientInfo { addr: "10.0.0.1:4000".to_string(), role: Roles::User, last_sent: 5 }
}

#[test]
fn a_line_read_is_forwarded_as_bytes() {
    let m = message_for_read(&info(), &st("T"), Some(4), &"héy\n".to_string());
    match m {
        Messages::NewMessage { token, message } => {
            assert_eq!(token, st("T"));
            assert_eq!(message, "héy\n".as_bytes().to_vec());
        }
        _ => panic!("expected a new message"),
    }
}

#[test]
fn reading_nothing_means_the_client_left() {
    let m = message_for_read(&info(), &st("T"), Some(0), &String::new());
    match m {
        Messages::ClientDisconnected { client, token } => {
            assert_eq!(token, st("T"));
            assert_eq!(client.addr, "10.0.0.1:4000");
            assert_eq!(client.last_sent, 5);
        }
        _ => panic!("expected a disconnection"),
    }
}

#[test]
fn a_failed_read_means_the_client_left() {
    let m = message_for_read(&info(), &st("T"), None, &"partial".to_string());
    assert!(matches!(m, Messages::ClientDisconnected { .. }));
}

#[test]
fn typed_lines_are_trimmed_before_sending() {
    assert_eq!(outgoing_line("hello there  \n"), Some(b"hello there".to_vec()));
    assert_eq!(outgoing_line("  indented\r\n"), Some(b"  indented".to_vec()));
    assert_eq!(outgoing_line("é\n"), Some("é".as_bytes().to_vec()));
}

#[test]
fn blank_lines_are_not_sent() {
    assert_eq!(outgoing_line("\n"), None);
    assert_eq!(outgoing_line("   \t \r\n"), None);
    assert_eq!(outgoing_line(""), None);
}

#[test]
fn server_binds_the_fixed_port() {
    assert_eq!(PORT, 1337);
    assert_eq!(server_address("0.0.0.0"), "0.0.0.0:1337");
    assert_eq!(server_address("localhost"), "localhost:1337");
}

#[test]
fn first_connection_is_admin_and_later_ones_users() {
    let mut roles = RoleAssigner::new();
    assert!(!roles.admin_exists);
    assert_eq!(roles.next_role(), Roles::Admin);
    assert!(roles.admin_exists);
    for _ in 0..5 {
        assert_eq!(roles.next_role(), Roles::User);
    }
}
