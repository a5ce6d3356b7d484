use vstd::prelude::*;
use crate::roles::Roles;
use crate::text::{decimal, push_char, push_decimal, string_of};

verus! {

/// The port the server listens on.
pub const PORT: u16 = 1337;

/// The address the server binds: the host, a colon and the port.
pub open spec fn listen_address(host: Seq<char>) -> Seq<char> {
    host.push(':') + decimal(PORT as nat)
}

/// The bound address is the whole host followed by `:1337`.
pub proof fn law_address_is_host_and_port(host: Seq<char>)
    ensures
        listen_address(host) == host + seq![':', '1', '3', '3', '7'],
        listen_address(host).take(host.len() as int) == host,
        listen_address(host).len() == host.len() + 5,
{
    reveal_with_fuel(decimal, 5);
    assert(decimal(1) == seq!['1']);
    assert(decimal(13) =~= seq!['1', '3']);
    assert(decimal(133) =~= seq!['1', '3', '3']);
    assert(decimal(1337) =~= seq!['1', '3', '3', '7']);
    assert(listen_address(host) =~= host + seq![':', '1', '3', '3', '7']);
    assert(listen_address(host).take(host.len() as int) =~= host);
}

/// The address to bind for the given host.
pub fn server_address(host: &str) -> (a: String)
    ensures
        a@ == listen_address(host@),
{
    let mut a = string_of(host);
    push_char(&mut a, ':');
    push_decimal(&mut a, PORT);
    a
}

/// One step of role assignment: the role given to a new connection and
/// whether an administrator exists afterwards.
pub open spec fn role_step(admin_exists: bool) -> (Roles, bool) {
    if admin_exists {
        (Roles::User, true)
    } else {
        (Roles::Admin, true)
    }
}

/// The roles handed to `n` connections in turn, starting from `admin_exists`.
pub open spec fn roles_handed_out(admin_exists: bool, n: nat) -> Seq<Roles>
    decreases n,
{
    if n == 0 {
        Seq::empty()
    } else {
        seq![role_step(admin_exists).0] + roles_handed_out(role_step(admin_exists).1, (n - 1) as nat)
    }
}

/// Hands out roles to new connections: the first becomes administrator.
#[derive(Debug)]
pub struct RoleAssigner {
    pub admin_exists: bool,
}

impl RoleAssigner {
    /// No connection has been given a role yet.
    pub fn new() -> (r: Self)
        ensures
            !r.admin_exists,
    {
        RoleAssigner { admin_exists: false }
    }

    /// The role for the next connection.
    pub fn next_role(&mut self) -> (role: Roles)
        ensures
            (role, final(self).admin_exists) == role_step(old(self).admin_exists),
    {
        if !self.admin_exists {
            self.admin_exists = true;
            Roles::Admin
        } else {
            Roles::User
        }
    }
}

/// Once an administrator exists, every later connection is a user.
proof fn lemma_only_users_after(n: nat)
    ensures
        forall|i: int| 0 <= i < n ==> #[trigger] roles_handed_out(true, n)[i] == Roles::User,
        roles_handed_out(true, n).len() == n,
    decreases n,
{
    if n > 0 {
        lemma_only_users_after((n - 1) as nat);
        let s = roles_handed_out(true, n);
        assert forall|i: int| 0 <= i < n implies #[trigger] s[i] == Roles::User by {
            if i > 0 {
                assert(s[i] == roles_handed_out(true, (n - 1) as nat)[i - 1]);
            }
        }
    }
}

/// Of the connections a fresh server accepts, the first and only the first
/// is made administrator.
pub proof fn law_first_connection_is_admin(n: nat)
    ensures
        roles_handed_out(false, n).len() == n,
        forall|i: int|
            0 <= i < n ==> (#[trigger] roles_handed_out(false, n)[i] == Roles::Admin <==> i == 0),
{
    if n > 0 {
        lemma_only_users_after((n - 1) as nat);
        let s = roles_handed_out(false, n);
        assert forall|i: int| 0 <= i < n implies (#[trigger] s[i] == Roles::Admin <==> i == 0) by {
            if i > 0 {
                assert(s[i] == roles_handed_out(true, (n - 1) as nat)[i - 1]);
            }
        }
    }
}

} // verus!
