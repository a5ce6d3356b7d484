use vstd::prelude::*;
use vstd::slice::slice_to_vec;
use vstd::utf8::{
    decode_utf8, decode_utf8_encode_utf8, encode_utf8, encode_utf8_decode_utf8, encode_utf8_valid_utf8,
    valid_utf8,
};
use crate::client::connection::ClientInfo;
use crate::text::{push_str, string_of};
use crate::token::{SharedToken, Token};

verus! {

/// What travels from the connection tasks to the server manager.
#[derive(Debug, Clone)]
pub enum Messages {
    /// A client has just connected under `token`.
    ClientConnected { client: ClientInfo, token: SharedToken },
    /// The client under `token` has closed its connection.
    ClientDisconnected { client: ClientInfo, token: SharedToken },
    /// The client under `token` has sent one line, as raw bytes.
    NewMessage { token: SharedToken, message: Vec<u8> },
}

/// The lines the server has relayed, each with the token of its sender,
/// oldest first.
#[derive(Debug, Clone)]
pub struct MessagesHistory {
    entries: Vec<(Token, Vec<u8>)>,
}

impl View for MessagesHistory {
    type V = Seq<(Seq<char>, Seq<u8>)>;

    closed spec fn view(&self) -> Seq<(Seq<char>, Seq<u8>)> {
        self.entries@.map_values(|e: (Token, Vec<u8>)| (e.0@, e.1@))
    }
}

impl MessagesHistory {
    /// An empty history.
    pub fn new() -> (h: Self)
        ensures
            h@ == Seq::<(Seq<char>, Seq<u8>)>::empty(),
    {
        let h = MessagesHistory { entries: Vec::new() };
        assert(h@ =~= Seq::<(Seq<char>, Seq<u8>)>::empty());
        h
    }

    /// Records that `message` was relayed for the client under `token`.
    pub fn append(&mut self, token: Token, message: Vec<u8>)
        ensures
            final(self)@ == old(self)@.push((token@, message@)),
    {
        self.entries.push((token, message));
        assert(self@ =~= old(self)@.push((token@, message@)));
    }

    /// How many lines have been recorded.
    pub fn len(&self) -> (n: usize)
        ensures
            n == self@.len(),
    {
        self.entries.len()
    }

    /// The `i`-th recorded line and its sender.
    pub fn get(&self, i: usize) -> (e: (&Token, &Vec<u8>))
        requires
            i < self@.len(),
        ensures
            e.0@ == self@[i as int].0,
            e.1@ == self@[i as int].1,
    {
        let entry = &self.entries[i];
        (&entry.0, &entry.1)
    }
}

impl Default for MessagesHistory {
    fn default() -> (h: Self)
        ensures
            h@ == Seq::<(Seq<char>, Seq<u8>)>::empty(),
    {
        MessagesHistory::new()
    }
}

/// The text with which the standard library describes why `bytes` are not
/// valid UTF-8 (the `Display` of its `FromUtf8Error`).
pub uninterp spec fn utf8_error_text(bytes: Seq<u8>) -> Seq<char>;

/// `String::from_utf8`: succeeds exactly when `bytes` is valid UTF-8, and
/// then the string's UTF-8 encoding is `bytes` itself; otherwise gives the
/// error's description, which depends on the bytes alone.
#[verifier::external_body]
fn string_from_utf8(bytes: Vec<u8>) -> (r: Result<String, String>)
    ensures
        r is Ok <==> valid_utf8(bytes@),
        r matches Ok(s) ==> encode_utf8(s@) == bytes@,
        r matches Err(e) ==> e@ == utf8_error_text(bytes@),
{
    match String::from_utf8(bytes) {
        Ok(s) => Ok(s),
        Err(e) => Err(format!("{}", e)),
    }
}

/// Reads a message's bytes as text: the characters they encode when they
/// are valid UTF-8, else the description of what is wrong with them.
pub fn read_text(b_message: &Vec<u8>) -> (r: Result<String, String>)
    ensures
        r is Ok <==> valid_utf8(b_message@),
        r matches Ok(s) ==> s@ == decode_utf8(b_message@),
        r matches Err(e) ==> e@ == utf8_error_text(b_message@),
{
    let r = string_from_utf8(slice_to_vec(b_message.as_slice()));
    proof {
        if r is Ok {
            encode_utf8_decode_utf8(r->Ok_0@);
        }
    }
    r
}

/// Reads a message's bytes as text: `Ok` exactly when they are valid UTF-8,
/// with the characters they encode.
pub fn from_bytes(b_message: &Vec<u8>) -> (r: Result<String, ()>)
    ensures
        r is Ok <==> valid_utf8(b_message@),
        r matches Ok(s) ==> s@ == decode_utf8(b_message@),
{
    match read_text(b_message) {
        Ok(s) => Ok(s),
        Err(_) => Err(()),
    }
}

/// The line that reports a message whose bytes are not text.
pub open spec fn conversion_error_line(description: Seq<char>) -> Seq<char> {
    "couldn't convert message to String: "@ + description
}

/// The report ends in the whole description, after a fixed lead-in.
pub proof fn law_conversion_error_keeps_description(description: Seq<char>)
    ensures
        conversion_error_line(description).len() == 36 + description.len(),
        conversion_error_line(description).skip(36) == description,
{
    reveal_strlit("couldn't convert message to String: ");
    assert(conversion_error_line(description).skip(36) =~= description);
}

/// Builds the report for bytes described as `description`.
pub fn conversion_error(description: &String) -> (r: String)
    ensures
        r@ == conversion_error_line(description@),
{
    let mut r = string_of("couldn't convert message to String: ");
    push_str(&mut r, description.as_str());
    r
}

/// Any text turned into bytes reads back as the same text.
pub proof fn law_text_survives_bytes(s: Seq<char>)
    ensures
        valid_utf8(encode_utf8(s)),
        decode_utf8(encode_utf8(s)) == s,
{
    encode_utf8_valid_utf8(s);
    encode_utf8_decode_utf8(s);
}

/// Bytes that read as text turn back into the same bytes.
pub proof fn law_bytes_survive_text(b: Seq<u8>)
    requires
        valid_utf8(b),
    ensures
        encode_utf8(decode_utf8(b)) == b,
{
    decode_utf8_encode_utf8(b);
}

/// The UTF-8 encoding of a message.
pub fn to_bytes(message: &String) -> (r: Vec<u8>)
    ensures
        r@ == encode_utf8(message@),
{
    slice_to_vec(message.as_str().as_bytes())
}

} // verus!
