use privy::roles::{Permission, Roles};
use privy::token::{get_token, new_token, token_from_bytes, SharedToken, Token, TOKEN_BYTES};

#[test]
fn admin_may_do_everything() {
    let p = Roles::Admin.permissions();
    assert_eq!(
        p,
        Permission { send: true, receive: true, kick: true, ban: true, unban: true, mute: true }
    );
}

#[test]
fn user_may_only_send_and_receive() {
    let p = Roles::User.permissions();
    assert_eq!(
        p,
        Permission { send: true, receive: true, kick: false, ban: false, unban: false, mute: false }
    );
}

#[test]
fn only_admins_moderate_for_every_role() {
    for role in [Roles::Admin, Roles::User] {
        let p = role.permissions();
        assert!(p.send && p.receive);
        let admin = role == Roles::Admin;
        assert_eq!(p.kick, admin);
        assert_eq!(p.ban, admin);
        assert_eq!(p.unban, admin);
        assert_eq!(p.mute, admin);
    }
}

#[test]
fn token_spells_bytes_in_upper_hex() {
    let t = token_from_bytes(&[0x00, 0xab, 0x0f, 0x7e, 0xff]);
    assert_eq!(t, Token("00AB0F7EFF".to_string()));
}

#[test]
fn token_of_no_bytes_is_empty() {
    assert_eq!(token_from_bytes(&[]), Token(String::new()));
}

#[test]
fn token_of_sixteen_bytes() {
    let bytes: Vec<u8> = (0u8..16).collect();
    let t = token_from_bytes(&bytes);
    assert_eq!(t.0, "000102030405060708090A0B0C0D0E0F");
}

#[test]
fn distinct_bytes_give_distinct_tokens() {
    assert_ne!(token_from_bytes(&[0x01, 0x10]), token_from_bytes(&[0x11, 0x00]));
    assert_ne!(token_from_bytes(&[0x01]), token_from_bytes(&[0x01, 0x00]));
}

#[test]
fn fresh_token_has_the_right_shape() {
    let t = get_token();
    assert_eq!(t.0.len(), 2 * TOKEN_BYTES);
    assert!(t.0.chars().all(|c| c.is_ascii_digit() || ('A'..='F').contains(&c)));
}

#[test]
fn fresh_tokens_are_random() {
    let a = get_token();
    let b = get_token();
    assert_ne!(a, b);
    assert_ne!(a.0, "0".repeat(32));
}

#[test]
fn token_copies_and_compares() {
    let a = Token("AB".to_string());
    let b = a.duplicate();
    assert_eq!(a, b);
    assert!(a.same(&b));
    assert!(!a.same(&Token("AC".to_string())));
}

#[test]
fn new_token_reports_the_random_source() {
    let (t, answer) = new_token();
    assert!(answer.is_ok());
    assert_eq!(t.0.len(), 32);
    assert_ne!(t.0, "0".repeat(32));
}

#[test]
fn shared_token_copies_keep_their_connection() {
    let a = SharedToken { token: Token("AB".to_string()), id: 4 };
    let b = a.duplicate();
    assert_eq!(a, b);
    assert_eq!(b.id, 4);
}
