use vstd::prelude::*;
use crate::text::{push_str, string_of};

verus! {

/// The line the echo server relays: the sender's address, a colon, a
/// space and what it wrote.
pub open spec fn relayed(addr: Seq<char>, line: Seq<char>) -> Seq<char> {
    addr + ": "@ + line
}

/// The relayed line is the whole address, a colon and a space, then the
/// whole line received, nothing cut and nothing added.
pub proof fn law_relay_keeps_whole_line(addr: Seq<char>, line: Seq<char>)
    ensures
        relayed(addr, line).len() == addr.len() + 2 + line.len(),
        relayed(addr, line).take(addr.len() as int) == addr,
        relayed(addr, line)[addr.len() as int] == ':',
        relayed(addr, line)[addr.len() + 1int] == ' ',
        relayed(addr, line).skip(addr.len() + 2int) == line,
{
    reveal_strlit(": ");
    let r = relayed(addr, line);
    assert(r.take(addr.len() as int) =~= addr);
    assert(r.skip(addr.len() + 2int) =~= line);
}

/// Builds the relayed line for `line` received from `addr`.
pub fn relay_line(addr: &str, line: &str) -> (r: String)
    ensures
        r@ == relayed(addr@, line@),
{
    let mut r = string_of(addr);
    push_str(&mut r, ": ");
    push_str(&mut r, line);
    r
}

} // verus!
