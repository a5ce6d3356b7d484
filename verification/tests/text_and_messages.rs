use privy::echo::relay_line;
use privy::messages::{conversion_error, from_bytes, read_text, to_bytes, MessagesHistory};
use privy::text::{chars_of, push_decimal, push_hex_upper, push_str, string_of, trimmed_end};
use privy::token::Token;

#[test]
fn to_bytes_is_utf8() {
    assert_eq!(to_bytes(&"hé€😀".to_string()), "hé€😀".as_bytes().to_vec());
    assert_eq!(to_bytes(&"abc".to_string()), vec![97, 98, 99]);
    assert_eq!(to_bytes(&String::new()), Vec::<u8>::new());
}

#[test]
fn from_bytes_reads_valid_utf8() {
    assert_eq!(from_bytes(&vec![104, 105]), Ok("hi".to_string()));
    assert_eq!(from_bytes(&vec![0xc3, 0xa9]), Ok("é".to_string()));
    assert_eq!(from_bytes(&vec![]), Ok(String::new()));
}

#[test]
fn from_bytes_refuses_invalid_utf8() {
    assert_eq!(from_bytes(&vec![0xff]), Err(()));
    assert_eq!(from_bytes(&vec![0xc3]), Err(()));
    assert_eq!(from_bytes(&vec![0xed, 0xa0, 0x80]), Err(()));
    assert_eq!(from_bytes(&vec![0xc0, 0x80]), Err(()));
}

#[test]
fn text_survives_bytes() {
    for s in ["", "plain", "ünïcödé", "日本語", "\u{10ffff}\n"] {
        let s = s.to_string();
        assert_eq!(from_bytes(&to_bytes(&s)), Ok(s));
    }
}

#[test]
fn bytes_survive_text() {
    let b = vec![0x61, 0xe2, 0x82, 0xac, 0x0a];
    let s = from_bytes(&b).unwrap();
    assert_eq!(to_bytes(&s), b);
}

#[test]
fn history_appends_in_order() {
    let mut h = MessagesHistory::new();
    assert_eq!(h.len(), 0);
    h.append(Token("A".to_string()), vec![1]);
    h.append(Token("B".to_string()), vec![2, 3]);
    assert_eq!(h.len(), 2);
    assert_eq!(h.get(0), (&Token("A".to_string()), &vec![1]));
    assert_eq!(h.get(1), (&Token("B".to_string()), &vec![2, 3]));
    assert_eq!(MessagesHistory::default().len(), 0);
}

#[test]
fn trimming_removes_trailing_whitespace_only() {
    assert_eq!(trimmed_end("  hi there \t\r\n"), "  hi there");
    assert_eq!(trimmed_end("x\u{3000}\u{2009}\u{a0}\u{85}"), "x");
    assert_eq!(trimmed_end(" \n\t"), "");
    assert_eq!(trimmed_end("a\u{200b}"), "a\u{200b}");
    assert_eq!(trimmed_end(""), "");
}

#[test]
fn trimming_agrees_with_std() {
    for s in ["a b  ", "\u{1680}q\u{1680}", "\u{2028}\u{2029}\u{202f}\u{205f}", "é \u{0b}\u{0c}", "z\u{180e}"] {
        assert_eq!(trimmed_end(s), s.trim_end());
    }
}

#[test]
fn hex_and_decimal_digits() {
    let mut s = String::from(">");
    push_hex_upper(&mut s, &[0x9a, 0x05]);
    assert_eq!(s, ">9A05");
    let mut d = String::new();
    push_decimal(&mut d, 1337);
    assert_eq!(d, "1337");
    let mut z = String::new();
    push_decimal(&mut z, 0);
    push_decimal(&mut z, 65535);
    assert_eq!(z, "065535");
}

#[test]
fn string_helpers() {
    assert_eq!(chars_of("aé"), vec!['a', 'é']);
    let mut s = string_of("ab");
    push_str(&mut s, "cd");
    assert_eq!(s, "abcd");
}

#[test]
fn echo_line_names_the_sender() {
    assert_eq!(relay_line("127.0.0.1:5000", "hello\n"), "127.0.0.1:5000: hello\n");
}

#[test]
fn read_text_describes_what_is_wrong() {
    assert_eq!(read_text(&vec![104, 105]), Ok("hi".to_string()));
    assert_eq!(
        read_text(&vec![0x61, 0xff]),
        Err("invalid utf-8 sequence of 1 bytes from index 1".to_string())
    );
    assert_eq!(read_text(&vec![0xe2, 0x82]), Err("incomplete utf-8 byte sequence from index 0".to_string()));
}

#[test]
fn conversion_error_line() {
    assert_eq!(conversion_error(&"oops".to_string()), "couldn't convert message to String: oops");
}
