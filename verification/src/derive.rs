//! The derivation orchestrator: derive the manifest for one commit or a
//! batch, persist the manifest and its instruction chunks, and keep the
//! per-commit mapping from commit identifier to manifest identifier.
//!
//! A commit is handed over as a snapshot of what the outside collaborators
//! yield for it: its identifier, its tree's listing (used when it has no
//! parents) and the diff of its tree against each parent tree. Object bytes
//! come from the read-side store; everything persisted goes to the write
//! side, and only after the whole manifest was assembled, so a failed
//! derivation leaves the write side untouched.

use vstd::prelude::*;

use crate::bytes::{hex_of, push_all, push_hex};
use crate::entries::{
    gdm_v2_entries_non_root, gdm_v2_entries_root, non_root_entries_spec, non_root_writes_spec,
    root_entries_spec, write_views, ManifestEntryV, SpecOutcome,
};
use crate::manifest::{manifest_bytes_of, manifest_id_of, GitDeltaManifestV2Id, Manifest};
use crate::store::{BlobStore, ObjV, ObjectStore};
use crate::types::{DeriveError, DiffEvent, GitDeltaManifestV2Config, TreeMember};

verus! {

/// Everything the derivation needs to know about one commit: its
/// identifier, its tree's members (used when it has no parents) and the
/// diff of its tree against each parent's tree, one diff per parent.
pub struct CommitSnapshot {
    pub commit_id: Vec<u8>,
    pub tree_listing: Vec<(Vec<u8>, TreeMember)>,
    pub parent_diffs: Vec<Vec<DiffEvent>>,
}

/// The entries a commit's manifest holds: a root commit records every
/// non-submodule member of its tree; any other commit records its grouped
/// diffs run through the skip/keep policy.
pub open spec fn derived_entries_spec(
    m: Map<Seq<u8>, ObjV>,
    cfg: GitDeltaManifestV2Config,
    snap: CommitSnapshot,
) -> SpecOutcome<Seq<(Seq<u8>, ManifestEntryV)>> {
    if snap.parent_diffs@.len() == 0 {
        root_entries_spec(m, snap.tree_listing@)
    } else {
        non_root_entries_spec(m, cfg, snap.parent_diffs@)
    }
}

/// The instruction-chunk writes a commit's derivation performs.
pub open spec fn derived_writes_spec(
    m: Map<Seq<u8>, ObjV>,
    cfg: GitDeltaManifestV2Config,
    snap: CommitSnapshot,
) -> Seq<(Seq<u8>, Seq<u8>)> {
    if snap.parent_diffs@.len() == 0 {
        Seq::empty()
    } else {
        non_root_writes_spec(m, cfg, snap.parent_diffs@)
    }
}

/// The manifest identifier a commit derives to.
pub open spec fn derived_id_spec(
    m: Map<Seq<u8>, ObjV>,
    cfg: GitDeltaManifestV2Config,
    snap: CommitSnapshot,
) -> Seq<u8>
    recommends
        derived_entries_spec(m, cfg, snap) is Made,
{
    manifest_id_of(derived_entries_spec(m, cfg, snap)->Made_0)
}

/// A map after a sequence of writes, each an insert, in order.
pub open spec fn store_after(
    b: Map<Seq<u8>, Seq<u8>>,
    ws: Seq<(Seq<u8>, Seq<u8>)>,
) -> Map<Seq<u8>, Seq<u8>>
    decreases ws.len(),
{
    if ws.len() == 0 {
        b
    } else {
        store_after(b, ws.drop_last()).insert(ws.last().0, ws.last().1)
    }
}

/// The write side after one commit's derivation: its chunk writes, then the
/// manifest under its identifier.
pub open spec fn derived_store_spec(
    b: Map<Seq<u8>, Seq<u8>>,
    m: Map<Seq<u8>, ObjV>,
    cfg: GitDeltaManifestV2Config,
    snap: CommitSnapshot,
) -> Map<Seq<u8>, Seq<u8>>
    recommends
        derived_entries_spec(m, cfg, snap) is Made,
{
    store_after(b, derived_writes_spec(m, cfg, snap)).insert(
        derived_id_spec(m, cfg, snap),
        manifest_bytes_of(derived_entries_spec(m, cfg, snap)->Made_0),
    )
}

/// Perform a sequence of writes.
fn apply_writes(blob: &mut BlobStore, writes: &Vec<(Vec<u8>, Vec<u8>)>)
    ensures
        final(blob)@ == store_after(old(blob)@, write_views(writes@)),
{
    let mut i: usize = 0;
    proof {
        assert(write_views(writes@).take(0) =~= Seq::<(Seq<u8>, Seq<u8>)>::empty());
        assert(blob@ == store_after(old(blob)@, write_views(writes@).take(0)));
    }
    while i < writes.len()
        invariant
            i <= writes.len(),
            blob@ == store_after(old(blob)@, write_views(writes@).take(i as int)),
        decreases writes.len() - i,
    {
        proof {
            assert(write_views(writes@).take(i + 1).drop_last() =~= write_views(writes@).take(
                i as int,
            ));
            assert(write_views(writes@).take(i + 1).last() == (writes@[i as int].0@, writes@[i
                as int].1@));
        }
        let key = crate::bytes::copy_bytes(&writes[i].0);
        let value = crate::bytes::copy_bytes(&writes[i].1);
        blob.put(key, value);
        i += 1;
    }
    proof {
        assert(write_views(writes@).take(write_views(writes@).len() as int) =~= write_views(
            writes@,
        ));
    }
}

/// The handle of a commit's derived delta manifest: the manifest's content
/// identifier, as stored in the per-commit mapping.
#[derive(Clone, Debug, PartialEq, Eq, Hash)]
pub struct RootGitDeltaManifestV2Id(pub GitDeltaManifestV2Id);

impl RootGitDeltaManifestV2Id {
    /// A well-formed handle wraps a well-formed identifier.
    pub open spec fn wf(&self) -> bool {
        self.0.wf()
    }

    /// The manifest identifier this handle wraps.
    pub fn manifest_id(&self) -> (r: &GitDeltaManifestV2Id)
        ensures
            *r == self.0,
    {
        &self.0
    }

    /// Derive the delta manifest of one commit: diff-derived entries for a
    /// commit with parents, the full tree for a root commit; persist the
    /// instruction chunks and the manifest; hand back the manifest's
    /// identifier. Fails exactly when a needed object is absent from the
    /// read side, and then writes nothing.
    pub fn derive_single(
        config: &GitDeltaManifestV2Config,
        snapshot: &CommitSnapshot,
        objects: &ObjectStore,
        blob: &mut BlobStore,
    ) -> (r: Result<RootGitDeltaManifestV2Id, DeriveError>)
        ensures
            r is Ok <==> derived_entries_spec(objects@, *config, *snapshot) is Made,
            r matches Ok(id) ==> id.0.bytes@ == derived_id_spec(objects@, *config, *snapshot)
                && id.wf() && final(blob)@ == derived_store_spec(
                old(blob)@,
                objects@,
                *config,
                *snapshot,
            ),
            r matches Err(e) ==> (e matches DeriveError::ObjectMissing { oid: o }
                && !objects@.contains_key(o@)),
            r is Err ==> final(blob)@ == old(blob)@,
    {
        let mut writes: Vec<(Vec<u8>, Vec<u8>)> = Vec::new();
        let entries = if snapshot.parent_diffs.len() == 0 {
            match gdm_v2_entries_root(objects, &snapshot.tree_listing) {
                Ok(es) => es,
                Err(e) => {
                    return Err(e);
                },
            }
        } else {
            match gdm_v2_entries_non_root(objects, config, &snapshot.parent_diffs, &mut writes) {
                Ok(es) => es,
                Err(e) => {
                    return Err(e);
                },
            }
        };
        proof {
            if snapshot.parent_diffs@.len() == 0 {
                assert(write_views(writes@) =~= derived_writes_spec(
                    objects@,
                    *config,
                    *snapshot,
                ));
            }
        }
        let manifest = Manifest::from_entries(entries);
        apply_writes(blob, &writes);
        let id = manifest.store(blob);
        Ok(RootGitDeltaManifestV2Id(id))
    }

    /// Derive from predecessor state: the algorithm is the same, re-run in
    /// full; the entry point exists for migrations from earlier derived
    /// formats.
    pub fn derive_from_predecessor(
        config: &GitDeltaManifestV2Config,
        snapshot: &CommitSnapshot,
        objects: &ObjectStore,
        blob: &mut BlobStore,
    ) -> (r: Result<RootGitDeltaManifestV2Id, DeriveError>)
        ensures
            r is Ok <==> derived_entries_spec(objects@, *config, *snapshot) is Made,
            r matches Ok(id) ==> id.0.bytes@ == derived_id_spec(objects@, *config, *snapshot)
                && id.wf() && final(blob)@ == derived_store_spec(
                old(blob)@,
                objects@,
                *config,
                *snapshot,
            ),
            r matches Err(e) ==> (e matches DeriveError::ObjectMissing { oid: o }
                && !objects@.contains_key(o@)),
            r is Err ==> final(blob)@ == old(blob)@,
    {
        Self::derive_single(config, snapshot, objects, blob)
    }
}

/// The write side after deriving a batch in order: each commit that
/// derives contributes its writes; a commit that fails contributes none.
pub open spec fn batch_store_spec(
    b: Map<Seq<u8>, Seq<u8>>,
    m: Map<Seq<u8>, ObjV>,
    cfg: GitDeltaManifestV2Config,
    snaps: Seq<CommitSnapshot>,
) -> Map<Seq<u8>, Seq<u8>>
    decreases snaps.len(),
{
    if snaps.len() == 0 {
        b
    } else {
        let prev = batch_store_spec(b, m, cfg, snaps.drop_last());
        if derived_entries_spec(m, cfg, snaps.last()) is Made {
            derived_store_spec(prev, m, cfg, snaps.last())
        } else {
            prev
        }
    }
}

impl RootGitDeltaManifestV2Id {
    /// Derive the manifests of a batch of commits, in order. Each commit is
    /// an independent derivation unit against the same read side, and each
    /// gets its own outcome: a failed commit reports its error in its own
    /// slot, contributes no writes, and neither blocks nor marks any
    /// sibling.
    pub fn derive_batch(
        config: &GitDeltaManifestV2Config,
        snapshots: &Vec<CommitSnapshot>,
        objects: &ObjectStore,
        blob: &mut BlobStore,
    ) -> (r: Vec<(Vec<u8>, Result<RootGitDeltaManifestV2Id, DeriveError>)>)
        ensures
            r@.len() == snapshots@.len(),
            forall|i: int| 0 <= i < r@.len() ==> (#[trigger] r@[i].0@) == snapshots@[i].commit_id@,
            forall|i: int|
                0 <= i < r@.len() ==> ((#[trigger] r@[i].1) is Ok <==> derived_entries_spec(
                    objects@,
                    *config,
                    snapshots@[i],
                ) is Made),
            forall|i: int|
                0 <= i < r@.len() ==> ((#[trigger] r@[i].1) matches Ok(id) ==> id.0.bytes@
                    == derived_id_spec(objects@, *config, snapshots@[i]) && id.wf()),
            forall|i: int|
                0 <= i < r@.len() ==> ((#[trigger] r@[i].1) matches Err(e) ==> e
                    matches DeriveError::ObjectMissing { oid: o } && !objects@.contains_key(o@)),
            final(blob)@ == batch_store_spec(old(blob)@, objects@, *config, snapshots@),
    {
        let ghost m = objects@;
        let ghost cfg = *config;
        let mut out: Vec<(Vec<u8>, Result<RootGitDeltaManifestV2Id, DeriveError>)> = Vec::new();
        let mut i: usize = 0;
        proof {
            assert(snapshots@.take(0) =~= Seq::<CommitSnapshot>::empty());
        }
        while i < snapshots.len()
            invariant
                i <= snapshots.len(),
                m == objects@,
                cfg == *config,
                out@.len() == i,
                forall|j: int|
                    0 <= j < i ==> (#[trigger] out@[j].0@) == snapshots@[j].commit_id@,
                forall|j: int|
                    0 <= j < i ==> ((#[trigger] out@[j].1) is Ok <==> derived_entries_spec(
                        m,
                        cfg,
                        snapshots@[j],
                    ) is Made),
                forall|j: int|
                    0 <= j < i ==> ((#[trigger] out@[j].1) matches Ok(id) ==> id.0.bytes@
                        == derived_id_spec(m, cfg, snapshots@[j]) && id.wf()),
                forall|j: int|
                    0 <= j < i ==> ((#[trigger] out@[j].1) matches Err(e) ==> e
                        matches DeriveError::ObjectMissing { oid: o } && !m.contains_key(o@)),
                blob@ == batch_store_spec(old(blob)@, m, cfg, snapshots@.take(i as int)),
            decreases snapshots.len() - i,
        {
            proof {
                assert(snapshots@.take(i + 1).drop_last() =~= snapshots@.take(i as int));
                assert(snapshots@.take(i + 1).last() == snapshots@[i as int]);
            }
            let outcome = Self::derive_single(config, &snapshots[i], objects, blob);
            out.push((crate::bytes::copy_bytes(&snapshots[i].commit_id), outcome));
            i += 1;
        }
        proof {
            assert(snapshots@.take(snapshots@.len() as int) =~= snapshots@);
        }
        out
    }
}

/// The fixed prefix of every persisted mapping key.
pub open spec fn root_prefix_v() -> Seq<u8> {
    seq![
        100u8, 101u8, 114u8, 105u8, 118u8, 101u8, 100u8, 95u8, 114u8, 111u8, 111u8, 116u8, 95u8,
        103u8, 100u8, 109u8, 50u8, 46u8,
    ]
}

/// The key a commit's mapping entry is stored under: the fixed root prefix,
/// the caller's key prefix, and the commit identifier in hexadecimal.
pub open spec fn format_key_spec(key_prefix: Seq<u8>, changeset_id: Seq<u8>) -> Seq<u8> {
    root_prefix_v() + key_prefix + hex_of(changeset_id)
}

/// Build the mapping key of one commit.
pub fn format_key(key_prefix: &Vec<u8>, changeset_id: &Vec<u8>) -> (r: Vec<u8>)
    ensures
        r@ == format_key_spec(key_prefix@, changeset_id@),
{
    let mut out: Vec<u8> = Vec::new();
    out.push(100);
    out.push(101);
    out.push(114);
    out.push(105);
    out.push(118);
    out.push(101);
    out.push(100);
    out.push(95);
    out.push(114);
    out.push(111);
    out.push(111);
    out.push(116);
    out.push(95);
    out.push(103);
    out.push(100);
    out.push(109);
    out.push(50);
    out.push(46);
    proof {
        assert(out@ =~= root_prefix_v());
    }
    push_all(&mut out, key_prefix);
    push_hex(&mut out, changeset_id);
    out
}

impl RootGitDeltaManifestV2Id {
    /// Persist the commit-to-manifest mapping entry. Writing the same
    /// identifier for the same commit again leaves the store as it was.
    pub fn store_mapping(
        self,
        blob: &mut BlobStore,
        key_prefix: &Vec<u8>,
        changeset_id: &Vec<u8>,
    )
        ensures
            final(blob)@ == old(blob)@.insert(
                format_key_spec(key_prefix@, changeset_id@),
                self.0.bytes@,
            ),
    {
        let key = format_key(key_prefix, changeset_id);
        let value = crate::bytes::copy_bytes(&self.0.bytes);
        blob.put(key, value);
    }

    /// Read the mapping entry of one commit: absent when the commit was
    /// never derived; an error when the stored bytes are not an identifier.
    pub fn fetch(
        blob: &BlobStore,
        key_prefix: &Vec<u8>,
        changeset_id: &Vec<u8>,
    ) -> (r: Result<Option<RootGitDeltaManifestV2Id>, DeriveError>)
        ensures
            !blob@.contains_key(format_key_spec(key_prefix@, changeset_id@)) ==> (r matches Ok(o)
                && o is None),
            blob@.contains_key(format_key_spec(key_prefix@, changeset_id@)) && blob@[
                format_key_spec(key_prefix@, changeset_id@)
            ].len() == crate::MANIFEST_ID_LEN ==> (r matches Ok(o) && o matches Some(id)
                && id.0.bytes@ == blob@[format_key_spec(key_prefix@, changeset_id@)] && id.wf()),
            blob@.contains_key(format_key_spec(key_prefix@, changeset_id@)) && blob@[
                format_key_spec(key_prefix@, changeset_id@)
            ].len() != crate::MANIFEST_ID_LEN ==> (r matches Err(e) && e
                matches DeriveError::BadIdBytes),
    {
        let key = format_key(key_prefix, changeset_id);
        match blob.get(&key) {
            None => Ok(None),
            Some(bytes) => match GitDeltaManifestV2Id::from_bytes(bytes) {
                Ok(id) => Ok(Some(RootGitDeltaManifestV2Id(id))),
                Err(e) => Err(e),
            },
        }
    }
}

} // verus!
