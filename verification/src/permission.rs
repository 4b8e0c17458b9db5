use vstd::prelude::*;

verus! {

/// The permission a replica holds on one document. ReadOnly receives
/// merges but never originates local mutation or broadcast; ReadWrite
/// does both; Owner has ReadWrite capability plus the (unenforced here)
/// authority to change other peers' permission.
#[derive(Clone, Copy, Debug, PartialEq, Eq, Structural)]
pub enum PeerPermission {
    ReadOnly,
    ReadWrite,
    Owner,
}

impl PeerPermission {
    /// Whether this permission level may originate local mutation and
    /// outbound broadcast.
    pub open spec fn may_write(self) -> bool {
        !(self is ReadOnly)
    }

    /// Consulted before any local mutation and before any outbound
    /// broadcast is framed.
    pub fn is_writable(&self) -> (r: bool)
        ensures
            r == self.may_write(),
    {
        match self {
            PeerPermission::ReadOnly => false,
            PeerPermission::ReadWrite => true,
            PeerPermission::Owner => true,
        }
    }

    /// The single wire byte that stands for this permission level.
    pub open spec fn spec_code(self) -> u8 {
        match self {
            PeerPermission::ReadOnly => 0,
            PeerPermission::ReadWrite => 1,
            PeerPermission::Owner => 2,
        }
    }

    /// Encode this permission level as its wire byte.
    pub fn code(&self) -> (r: u8)
        ensures
            r == self.spec_code(),
    {
        match self {
            PeerPermission::ReadOnly => 0,
            PeerPermission::ReadWrite => 1,
            PeerPermission::Owner => 2,
        }
    }

    /// The permission level a wire byte stands for, if any.
    pub open spec fn spec_decode(b: u8) -> Option<PeerPermission> {
        if b == 0 {
            Some(PeerPermission::ReadOnly)
        } else if b == 1 {
            Some(PeerPermission::ReadWrite)
        } else if b == 2 {
            Some(PeerPermission::Owner)
        } else {
            None
        }
    }

    /// Decode a wire byte into a permission level; bytes outside the
    /// enumeration are rejected.
    pub fn decode(b: u8) -> (r: Option<PeerPermission>)
        ensures
            r == PeerPermission::spec_decode(b),
    {
        if b == 0 {
            Some(PeerPermission::ReadOnly)
        } else if b == 1 {
            Some(PeerPermission::ReadWrite)
        } else if b == 2 {
            Some(PeerPermission::Owner)
        } else {
            None
        }
    }
}

impl Default for PeerPermission {
    /// A document starts ReadOnly unless a permission is asserted for it.
    fn default() -> (r: Self)
        ensures
            r == PeerPermission::ReadOnly,
    {
        PeerPermission::ReadOnly
    }
}

/// Round trip of the permission wire byte: decoding what `code` produced
/// gives the permission back.
pub proof fn lemma_permission_code_round_trip(p: PeerPermission)
    ensures
        PeerPermission::spec_decode(p.spec_code()) == Some(p),
{
}

} // verus!
