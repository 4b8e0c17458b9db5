use vstd::prelude::*;

use crate::codec::{copy_range, lemma_concat_prefix, lemma_concat_suffix, lemma_u128_round_trip,
    push_u128, read_u128, u128_from_bytes, u128_le_bytes};
use crate::permission::{lemma_permission_code_round_trip, PeerPermission};

verus! {

/// The unit exchanged between peers: the document id the payload is
/// addressed to, the permission the sender asserts for the receiver
/// (accepted as claimed — nothing here verifies it cryptographically),
/// and an opaque self-describing snapshot.
#[derive(Debug, Clone, PartialEq)]
pub struct Invite {
    pub id: u128,
    pub data: Vec<u8>,
    pub permission: PeerPermission,
}

/// The wire frame of an envelope: the 16-byte document id, one
/// permission byte, then the payload to the end of the frame.
pub open spec fn spec_encode_envelope(
    id: u128,
    permission: PeerPermission,
    payload: Seq<u8>,
) -> Seq<u8> {
    u128_le_bytes(id) + seq![permission.spec_code()] + payload
}

/// The envelope a wire frame stands for, if it is long enough to hold
/// the id and a valid permission byte; everything after them is the
/// payload.
pub open spec fn spec_parse_envelope(b: Seq<u8>) -> Option<(u128, PeerPermission, Seq<u8>)> {
    if b.len() >= 17 {
        match PeerPermission::spec_decode(b[16]) {
            Some(p) => Some(
                (u128_from_bytes(b.subrange(0, 16)), p, b.subrange(17, b.len() as int)),
            ),
            None => None,
        }
    } else {
        None
    }
}

/// Slicing the concatenation of a 16-byte id, one permission byte and a
/// payload recovers each part.
proof fn lemma_envelope_slices_gen(idb: Seq<u8>, pb: Seq<u8>, payload: Seq<u8>)
    requires
        idb.len() == 16,
        pb.len() == 1,
    ensures
        (idb + pb + payload).len() == 17 + payload.len(),
        (idb + pb + payload).subrange(0, 16) == idb,
        (idb + pb + payload)[16] == pb[0],
        (idb + pb + payload).subrange(17, 17 + payload.len() as int) == payload,
{
    lemma_concat_prefix(idb + pb, payload, 0, 16);
    lemma_concat_prefix(idb, pb, 0, 16);
    assert(idb.subrange(0, 16) =~= idb);
    lemma_concat_suffix(idb + pb, payload, 0, payload.len() as int);
    assert(payload.subrange(0, payload.len() as int) =~= payload);
}

/// An envelope frame parses back to the envelope it encodes.
#[verifier::rlimit(100)]
#[verifier::spinoff_prover]
pub proof fn lemma_envelope_round_trip(id: u128, permission: PeerPermission, payload: Seq<u8>)
    ensures
        spec_parse_envelope(spec_encode_envelope(id, permission, payload)) == Some(
            (id, permission, payload),
        ),
{
    let idb = u128_le_bytes(id);
    let pb = seq![permission.spec_code()];
    let b = spec_encode_envelope(id, permission, payload);
    assert(b == idb + pb + payload);
    lemma_u128_round_trip(id);
    lemma_permission_code_round_trip(permission);
    lemma_envelope_slices_gen(idb, pb, payload);
}

impl Invite {
    /// Frame this envelope for the wire.
    pub fn encode(&self) -> (r: Vec<u8>)
        ensures
            r@ == spec_encode_envelope(self.id, self.permission, self.data@),
    {
        let mut out: Vec<u8> = Vec::new();
        push_u128(&mut out, self.id);
        out.push(self.permission.code());
        let mut i: usize = 0;
        let ghost mid = out@;
        while i < self.data.len()
            invariant
                0 <= i <= self.data@.len(),
                out@ == mid + self.data@.subrange(0, i as int),
            decreases self.data@.len() - i,
        {
            out.push(self.data[i]);
            assert(out@ =~= mid + self.data@.subrange(0, i as int + 1));
            i = i + 1;
        }
        assert(out@ =~= spec_encode_envelope(self.id, self.permission, self.data@));
        out
    }

    /// Read an envelope off the wire. Exactly the frames that
    /// `spec_parse_envelope` accepts decode.
    pub fn decode(b: &Vec<u8>) -> (r: Option<Invite>)
        ensures
            match r {
                Some(inv) => spec_parse_envelope(b@) == Some(
                    (inv.id, inv.permission, inv.data@),
                ),
                None => spec_parse_envelope(b@) is None,
            },
    {
        if b.len() < 17 {
            return None;
        }
        let permission = match PeerPermission::decode(b[16]) {
            Some(p) => p,
            None => {
                return None;
            },
        };
        let id = read_u128(b, 0);
        let data = copy_range(b, 17, b.len());
        Some(Invite { id, data, permission })
    }
}

} // verus!
