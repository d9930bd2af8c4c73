//! Core data model: object identifiers, tree members, diff events,
//! configuration and the error taxonomy of the derivation.

use vstd::prelude::*;

verus! {

/// The kind of an object that a tree entry points at. Submodules surface in a
/// tree as commit references and are excluded from manifests.
#[derive(Clone, Copy, Debug, PartialEq, Eq, Structural)]
pub enum ObjectKind {
    Blob,
    Tree,
    Submodule,
}

/// A content identifier of a stored object (a hash, kept as raw bytes).
#[derive(Clone, Debug, PartialEq, Eq, Hash)]
pub struct ObjectId {
    pub bytes: Vec<u8>,
}

impl View for ObjectId {
    type V = Seq<u8>;

    open spec fn view(&self) -> Seq<u8> {
        self.bytes@
    }
}

/// Mathematical image of one tree member: its identifier and kind.
pub ghost struct MemberV {
    pub oid: Seq<u8>,
    pub kind: ObjectKind,
}

/// One member of a tree: the object it points at and that object's kind.
#[derive(Clone, Debug)]
pub struct TreeMember {
    pub oid: ObjectId,
    pub kind: ObjectKind,
}

impl View for TreeMember {
    type V = MemberV;

    open spec fn view(&self) -> MemberV {
        MemberV { oid: self.oid@, kind: self.kind }
    }
}

impl TreeMember {
    /// Whether this member is a submodule reference.
    pub fn is_submodule(&self) -> (r: bool)
        ensures
            r == (self@.kind is Submodule),
    {
        matches!(self.kind, ObjectKind::Submodule)
    }
}

/// Mathematical image of one diff event.
pub ghost enum EventV {
    Added { path: Seq<u8>, new: MemberV },
    Changed { path: Seq<u8>, old: MemberV, new: MemberV },
    Removed { path: Seq<u8>, old: MemberV },
}

/// One event of the pairwise tree diff between a parent tree and the
/// commit's tree, keyed by the path it concerns.
#[derive(Clone, Debug)]
pub enum DiffEvent {
    Added { path: Vec<u8>, new: TreeMember },
    Changed { path: Vec<u8>, old: TreeMember, new: TreeMember },
    Removed { path: Vec<u8>, old: TreeMember },
}

impl View for DiffEvent {
    type V = EventV;

    open spec fn view(&self) -> EventV {
        match self {
            DiffEvent::Added { path, new } => EventV::Added { path: path@, new: new@ },
            DiffEvent::Changed { path, old, new } => EventV::Changed {
                path: path@,
                old: old@,
                new: new@,
            },
            DiffEvent::Removed { path, old } => EventV::Removed { path: path@, old: old@ },
        }
    }
}

/// The externally supplied numeric configuration of the derivation.
#[derive(Clone, Copy, Debug)]
pub struct GitDeltaManifestV2Config {
    /// Size of the fixed pieces that delta instruction bytes are cut into.
    pub delta_chunk_size: usize,
    /// Largest full object that may be embedded directly in a manifest entry.
    pub max_inlined_object_size: usize,
    /// Largest instruction chunk that may be embedded instead of stored.
    pub max_inlined_delta_size: usize,
}

/// The ways a derivation or a decode can fail.
#[derive(Clone, Debug)]
pub enum DeriveError {
    /// A needed object was absent from the object source.
    ObjectMissing { oid: ObjectId },
    /// Persisted manifest-identifier bytes had the wrong shape.
    BadIdBytes,
    /// Wire bytes did not carry the manifest-identifier variant.
    BadWireBytes,
}

} // verus!
