//! The wire form of the manifest handle: one byte naming the variant of the
//! tagged union, then the identifier's bytes. Decoding accepts exactly what
//! encoding produces; any other byte string is rejected, never defaulted.

use vstd::prelude::*;

use crate::derive::RootGitDeltaManifestV2Id;
use crate::manifest::GitDeltaManifestV2Id;
use crate::types::DeriveError;

verus! {

/// The tag naming the delta-manifest variant of the tagged union.
pub const WIRE_TAG_GIT_DELTA_MANIFEST_V2: u8 = 9;

/// The wire bytes of an identifier.
pub open spec fn wire_enc(id: Seq<u8>) -> Seq<u8> {
    seq![WIRE_TAG_GIT_DELTA_MANIFEST_V2] + id
}

/// The identifier wire bytes carry, when they carry one: the tag must match
/// and the payload must be exactly one identifier wide.
pub open spec fn wire_dec(b: Seq<u8>) -> Option<Seq<u8>> {
    if b.len() == 1 + crate::MANIFEST_ID_LEN && b[0] == WIRE_TAG_GIT_DELTA_MANIFEST_V2 {
        Some(b.skip(1))
    } else {
        None
    }
}

/// Encode a manifest handle for the wire.
pub fn to_wire(id: &RootGitDeltaManifestV2Id) -> (r: Vec<u8>)
    requires
        id.wf(),
    ensures
        r@ == wire_enc(id.0.bytes@),
{
    let mut out: Vec<u8> = Vec::new();
    out.push(WIRE_TAG_GIT_DELTA_MANIFEST_V2);
    crate::bytes::push_all(&mut out, &id.0.bytes);
    proof {
        assert(out@ =~= wire_enc(id.0.bytes@));
    }
    out
}

/// Decode a manifest handle from the wire; bytes of any other variant or
/// shape are an error.
pub fn from_wire(bytes: &Vec<u8>) -> (r: Result<RootGitDeltaManifestV2Id, DeriveError>)
    ensures
        r is Ok <==> wire_dec(bytes@) is Some,
        r matches Ok(id) ==> wire_dec(bytes@) == Some(id.0.bytes@) && id.wf(),
        r matches Err(e) ==> e matches DeriveError::BadWireBytes,
{
    if bytes.len() != 1 + crate::MANIFEST_ID_LEN {
        return Err(DeriveError::BadWireBytes);
    }
    if bytes[0] != WIRE_TAG_GIT_DELTA_MANIFEST_V2 {
        return Err(DeriveError::BadWireBytes);
    }
    let mut payload: Vec<u8> = Vec::new();
    crate::delta::push_range(&mut payload, bytes, 1, bytes.len());
    proof {
        assert(payload@ =~= bytes@.skip(1));
    }
    Ok(RootGitDeltaManifestV2Id(GitDeltaManifestV2Id { bytes: payload }))
}

/// Decoding what encoding produced yields the identifier back, unchanged.
pub proof fn lemma_wire_round_trip(id: Seq<u8>)
    requires
        id.len() == crate::MANIFEST_ID_LEN,
    ensures
        wire_dec(wire_enc(id)) == Some(id),
{
    assert(wire_enc(id).skip(1) =~= id);
}

/// Wire bytes decode to at most one identifier, and only bytes that
/// encoding could have produced decode at all.
pub proof fn lemma_wire_dec_inverts(b: Seq<u8>)
    ensures
        wire_dec(b) matches Some(id) ==> b == wire_enc(id) && id.len()
            == crate::MANIFEST_ID_LEN,
{
    if wire_dec(b) is Some {
        assert(wire_enc(b.skip(1)) =~= b);
    }
}

} // verus!
