use vstd::prelude::*;
use crate::text::{hex_byte, hex_digits, hex_upper, push_hex_upper};

verus! {

#[verifier::external_type_specification]
#[verifier::external_body]
pub struct ExRandomError(getrandom::Error);

/// A client's identity on the server: the upper-case hexadecimal form of
/// sixteen random bytes.
#[derive(Debug, PartialEq, Eq, Hash, Clone, Default)]
pub struct Token(pub String);

impl View for Token {
    type V = Seq<char>;

    open spec fn view(&self) -> Seq<char> {
        self.0@
    }
}

impl Token {
    /// A copy of this token.
    pub fn duplicate(&self) -> (r: Self)
        ensures
            r == *self,
    {
        Token(self.0.clone())
    }

    /// Whether two tokens are spelled alike.
    pub fn same(&self, other: &Token) -> (b: bool)
        ensures
            b == (self@ == other@),
    {
        self.0 == other.0
    }
}

/// A token as one connection holds it: the token and the number of the
/// connection that drew it. Copies handed around by one connection share
/// its number, which tells them from an equal token drawn elsewhere.
#[derive(Debug, Clone, PartialEq, Eq, Hash)]
pub struct SharedToken {
    pub token: Token,
    pub id: u64,
}

impl View for SharedToken {
    type V = Seq<char>;

    open spec fn view(&self) -> Seq<char> {
        self.token@
    }
}

impl SharedToken {
    /// A copy of this token, as held by the same connection.
    pub fn duplicate(&self) -> (r: Self)
        ensures
            r == *self,
    {
        SharedToken { token: self.token.duplicate(), id: self.id }
    }
}

/// How many random bytes a token is made of.
pub const TOKEN_BYTES: usize = 16;

/// Every character of `s` is an upper-case hexadecimal digit.
pub open spec fn is_upper_hex(s: Seq<char>) -> bool {
    forall|i: int| 0 <= i < s.len() ==> hex_digits().contains(#[trigger] s[i])
}

/// `getrandom::fill`: asks the operating system for random bytes and writes
/// them into `dest`. What the bytes are, and whether the call succeeds, rests
/// on the operating system, so nothing is claimed of either.
#[verifier::external_body]
fn fill_random(dest: &mut [u8; 16]) -> Result<(), getrandom::Error> {
    getrandom::fill(dest)
}

/// The token spelled by `bytes`: two upper-case hexadecimal digits per byte.
pub fn token_from_bytes(bytes: &[u8]) -> (t: Token)
    ensures
        t@ == hex_upper(bytes@),
{
    let mut s = String::new();
    push_hex_upper(&mut s, bytes);
    Token(s)
}

/// A fresh token made from sixteen random bytes, together with the random
/// source's answer, so that a failure can be reported. Should the operating
/// system refuse, the bytes are whatever the buffer then holds.
pub fn new_token() -> (r: (Token, Result<(), getrandom::Error>))
    ensures
        exists|b: Seq<u8>| b.len() == TOKEN_BYTES && r.0@ == #[trigger] hex_upper(b),
        r.0@.len() == 2 * TOKEN_BYTES,
        is_upper_hex(r.0@),
{
    let mut buffer = [0u8; 16];
    let answer = fill_random(&mut buffer);
    let t = token_from_bytes(buffer.as_slice());
    proof {
        token_shape(buffer@);
    }
    (t, answer)
}

/// A fresh token made from sixteen random bytes; `new_token` also hands
/// back the random source's answer.
pub fn get_token() -> (t: Token)
    ensures
        exists|b: Seq<u8>| b.len() == TOKEN_BYTES && t@ == #[trigger] hex_upper(b),
        t@.len() == 2 * TOKEN_BYTES,
        is_upper_hex(t@),
{
    let (t, _) = new_token();
    t
}

/// A token spelled from `b` is twice as long as `b` and holds only
/// upper-case hexadecimal digits.
pub proof fn token_shape(b: Seq<u8>)
    ensures
        hex_upper(b).len() == 2 * b.len(),
        is_upper_hex(hex_upper(b)),
    decreases b.len(),
{
    if b.len() > 0 {
        token_shape(b.drop_last());
        let p = hex_upper(b.drop_last());
        let h = hex_byte(b.last());
        assert(hex_digits().contains(h[0]));
        assert(hex_digits().contains(h[1]));
        assert forall|i: int| 0 <= i < (p + h).len() implies hex_digits().contains(
            #[trigger] (p + h)[i],
        ) by {
            if i < p.len() {
                assert((p + h)[i] == p[i]);
            } else {
                assert((p + h)[i] == h[i - p.len()]);
            }
        }
    }
}

/// Byte `i` is spelled by characters `2i` (its high four bits) and `2i + 1`
/// (its low four bits), each an upper-case hexadecimal digit.
pub proof fn law_token_spells_each_byte(b: Seq<u8>, i: int)
    requires
        0 <= i < b.len(),
    ensures
        hex_upper(b)[2 * i] == hex_digits()[(b[i] / 16) as int],
        hex_upper(b)[2 * i + 1] == hex_digits()[(b[i] % 16) as int],
    decreases b.len(),
{
    token_shape(b);
    let p = b.drop_last();
    token_shape(p);
    if i < b.len() - 1 {
        law_token_spells_each_byte(p, i);
        assert(hex_upper(b)[2 * i] == hex_upper(p)[2 * i]);
        assert(hex_upper(b)[2 * i + 1] == hex_upper(p)[2 * i + 1]);
    } else {
        assert(hex_upper(b)[2 * i] == hex_byte(b.last())[0]);
        assert(hex_upper(b)[2 * i + 1] == hex_byte(b.last())[1]);
    }
}

proof fn hex_digits_distinct(x: int, y: int)
    requires
        0 <= x < 16,
        0 <= y < 16,
        hex_digits()[x] == hex_digits()[y],
    ensures
        x == y,
{
}

/// Distinct byte strings give distinct tokens: the spelling of a token
/// determines the bytes it was made from.
pub proof fn token_injective(a: Seq<u8>, b: Seq<u8>)
    requires
        hex_upper(a) == hex_upper(b),
    ensures
        a == b,
    decreases a.len(),
{
    token_shape(a);
    token_shape(b);
    if a.len() > 0 {
        let pa = hex_upper(a.drop_last());
        let pb = hex_upper(b.drop_last());
        let ha = hex_byte(a.last());
        let hb = hex_byte(b.last());
        token_shape(a.drop_last());
        token_shape(b.drop_last());
        assert(pa + ha == pb + hb);
        assert(pa == (pa + ha).take(pa.len() as int));
        assert(pb == (pb + hb).take(pb.len() as int));
        assert(ha[0] == (pa + ha)[pa.len() as int]);
        assert(hb[0] == (pb + hb)[pb.len() as int]);
        assert(ha[1] == (pa + ha)[pa.len() + 1int]);
        assert(hb[1] == (pb + hb)[pb.len() + 1int]);
        hex_digits_distinct((a.last() / 16) as int, (b.last() / 16) as int);
        hex_digits_distinct((a.last() % 16) as int, (b.last() % 16) as int);
        assert(a.last() == b.last());
        token_injective(a.drop_last(), b.drop_last());
        assert(a == a.drop_last().push(a.last()));
        assert(b == b.drop_last().push(b.last()));
    }
}

} // verus!
