use vstd::prelude::*;
use vstd::utf8::encode_utf8;
use crate::messages::to_bytes;
use crate::text::{is_whitespace, trim_end, trimmed_end};

verus! {

/// The bytes to send for a line typed by the user: the line without its
/// trailing whitespace, or nothing when no other character is left.
pub fn outgoing_line(input: &str) -> (r: Option<Vec<u8>>)
    ensures
        r is None <==> trim_end(input@).len() == 0,
        r matches Some(b) ==> b@ == encode_utf8(trim_end(input@)),
{
    let message = trimmed_end(input);
    if message.as_str().is_empty() {
        None
    } else {
        Some(to_bytes(&message))
    }
}

/// A line once trimmed has nothing left to trim, and unless it is empty it
/// ends in a character that is not whitespace.
pub proof fn law_trimmed_line_ends_in_text(s: Seq<char>)
    ensures
        trim_end(trim_end(s)) == trim_end(s),
        trim_end(s).len() > 0 ==> !is_whitespace(trim_end(s).last()),
        trim_end(s).len() <= s.len(),
    decreases s.len(),
{
    if s.len() > 0 && is_whitespace(s.last()) {
        law_trimmed_line_ends_in_text(s.drop_last());
    }
}

} // verus!
