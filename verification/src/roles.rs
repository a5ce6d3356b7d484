use vstd::prelude::*;

verus! {

/// The role a connected client plays on the server.
#[derive(Debug, Clone, Copy, PartialEq, Eq, Structural)]
pub enum Roles {
    Admin,
    User,
}

/// What a client holding some role is allowed to do.
#[derive(Debug, Clone, Copy, PartialEq, Eq, Structural)]
pub struct Permission {
    pub send: bool,
    pub receive: bool,
    pub kick: bool,
    pub ban: bool,
    pub unban: bool,
    pub mute: bool,
}

/// An administrator may do everything; a user may only send and receive.
pub open spec fn role_permissions(role: Roles) -> Permission {
    let admin = role == Roles::Admin;
    Permission { send: true, receive: true, kick: admin, ban: admin, unban: admin, mute: admin }
}

/// Every role may send and receive; kicking, banning, unbanning and muting
/// belong to administrators alone.
pub proof fn law_only_admins_moderate(role: Roles)
    ensures
        role_permissions(role).send && role_permissions(role).receive,
        role_permissions(role).kick <==> role == Roles::Admin,
        role_permissions(role).ban <==> role == Roles::Admin,
        role_permissions(role).unban <==> role == Roles::Admin,
        role_permissions(role).mute <==> role == Roles::Admin,
{
}

impl Roles {
    pub fn permissions(&self) -> (p: Permission)
        ensures
            p == role_permissions(*self),
    {
        match self {
            Roles::Admin => Permission {
                send: true,
                receive: true,
                kick: true,
                ban: true,
                unban: true,
                mute: true,
            },
            Roles::User => Permission {
                send: true,
                receive: true,
                kick: false,
                ban: false,
                unban: false,
                mute: false,
            },
        }
    }
}

} // verus!
