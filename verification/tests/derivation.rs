//! End-to-end derivation scenarios: root commits, linear history, merges,
//! the unanimity skip rule and the inlining threshold.

use git_delta_manifest::derive::{CommitSnapshot, RootGitDeltaManifestV2Id};
use git_delta_manifest::entries::{
    gdm_v2_entries_non_root, gdm_v2_entries_root, inline_object, ManifestEntry,
};
use git_delta_manifest::store::{BlobStore, ObjectStore, StoredObject};
use git_delta_manifest::types::{
    DiffEvent, GitDeltaManifestV2Config, ObjectId, ObjectKind, TreeMember,
};

fn oid(n: u8) -> ObjectId {
    ObjectId { bytes: vec![n; 20] }
}

fn blob(n: u8) -> TreeMember {
    TreeMember { oid: oid(n), kind: ObjectKind::Blob }
}

fn submodule(n: u8) -> TreeMember {
    TreeMember { oid: oid(n), kind: ObjectKind::Submodule }
}

fn noise(len: usize, mut seed: u64) -> Vec<u8> {
    let mut out = Vec::with_capacity(len);
    for _ in 0..len {
        seed = seed.wrapping_mul(6364136223846793005).wrapping_add(1442695040888963407);
        out.push((seed >> 33) as u8);
    }
    out
}

fn stored(n: u8, raw: Vec<u8>) -> StoredObject {
    let mut framed = vec![104, 100, 114, 32];
    framed.extend_from_slice(&raw);
    StoredObject { oid: oid(n), raw, framed }
}

fn config() -> GitDeltaManifestV2Config {
    GitDeltaManifestV2Config {
        delta_chunk_size: 4096,
        max_inlined_object_size: 200,
        max_inlined_delta_size: 100,
    }
}

fn changed(path: &str, old: TreeMember, new: TreeMember) -> DiffEvent {
    DiffEvent::Changed { path: path.as_bytes().to_vec(), old, new }
}

fn added(path: &str, new: TreeMember) -> DiffEvent {
    DiffEvent::Added { path: path.as_bytes().to_vec(), new }
}

fn entry_for<'a>(
    entries: &'a [(Vec<u8>, ManifestEntry)],
    path: &str,
) -> Option<&'a ManifestEntry> {
    entries
        .iter()
        .find(|(p, _)| p.as_slice() == path.as_bytes())
        .map(|(_, e)| e)
}

#[test]
fn root_commit_totality() {
    // every non-submodule member of a root commit's tree gets an entry with
    // no deltas; the submodule gets none
    let store = ObjectStore {
        objects: vec![stored(1, noise(50, 1)), stored(2, noise(60, 2))],
    };
    let listing = vec![
        (b"".to_vec(), TreeMember { oid: oid(1), kind: ObjectKind::Tree }),
        (b"f".to_vec(), blob(2)),
        (b"sub".to_vec(), submodule(3)),
    ];
    let entries = gdm_v2_entries_root(&store, &listing).unwrap();
    assert_eq!(entries.len(), 2);
    let root_entry = entry_for(&entries, "").unwrap();
    assert!(root_entry.deltas.is_empty());
    assert_eq!(root_entry.full_object.size, 50);
    let f_entry = entry_for(&entries, "f").unwrap();
    assert!(f_entry.deltas.is_empty());
    assert!(entry_for(&entries, "sub").is_none());
}

#[test]
fn linear_history_one_changed_file() {
    // one parent, one changed file: its entry and the root tree's entry each
    // carry one delta against the parent's version
    let old_f = noise(1000, 3);
    let mut new_f = old_f.clone();
    new_f[500] ^= 0xff;
    let old_root = noise(300, 4);
    let mut new_root = old_root.clone();
    new_root[100] ^= 0x55;
    let store = ObjectStore {
        objects: vec![
            stored(1, old_root),
            stored(2, new_root),
            stored(3, old_f),
            stored(4, new_f),
        ],
    };
    let diffs = vec![vec![
        changed("", TreeMember { oid: oid(1), kind: ObjectKind::Tree }, TreeMember {
            oid: oid(2),
            kind: ObjectKind::Tree,
        }),
        changed("f", blob(3), blob(4)),
    ]];
    let mut writes = Vec::new();
    let entries = gdm_v2_entries_non_root(&store, &config(), &diffs, &mut writes).unwrap();
    assert_eq!(entries.len(), 2);
    for (_, e) in &entries {
        assert_eq!(e.deltas.len(), 1);
        assert!(e.full_object.inlined_bytes.is_none());
    }
    let f_entry = entry_for(&entries, "f").unwrap();
    assert_eq!(f_entry.deltas[0].base_object.oid, oid(3));
    assert_eq!(f_entry.deltas[0].base_object_path, b"f".to_vec());
}

#[test]
fn even_merge_unanimity() {
    // two parents; "base" differs from both parents, "branch" only from one:
    // "base" gets an entry with two deltas, "branch" gets none
    let base_m = noise(1000, 5);
    let mut base_p1 = base_m.clone();
    base_p1[10] ^= 1;
    let mut base_p2 = base_m.clone();
    base_p2[20] ^= 2;
    let branch_old = noise(400, 6);
    let mut branch_new = branch_old.clone();
    branch_new[7] ^= 9;
    let store = ObjectStore {
        objects: vec![
            stored(1, base_p1),
            stored(2, base_p2),
            stored(3, base_m),
            stored(4, branch_old),
            stored(5, branch_new),
        ],
    };
    let diffs = vec![
        vec![changed("base", blob(1), blob(3))],
        vec![changed("base", blob(2), blob(3)), changed("branch", blob(4), blob(5))],
    ];
    let mut writes = Vec::new();
    let entries = gdm_v2_entries_non_root(&store, &config(), &diffs, &mut writes).unwrap();
    assert_eq!(entries.len(), 1);
    let base_entry = entry_for(&entries, "base").unwrap();
    assert_eq!(base_entry.deltas.len(), 2);
    assert_eq!(base_entry.deltas[0].base_object.oid, oid(1));
    assert_eq!(base_entry.deltas[1].base_object.oid, oid(2));
    assert!(entry_for(&entries, "branch").is_none());
}

#[test]
fn new_file_in_merge_has_no_deltas() {
    // a file surfacing in a merge as an addition against both parents gets
    // an entry with zero deltas, small enough here to be inlined
    let content = noise(100, 7);
    let store = ObjectStore { objects: vec![stored(1, content.clone())] };
    let diffs = vec![vec![added("n", blob(1))], vec![added("n", blob(1))]];
    let mut writes = Vec::new();
    let entries = gdm_v2_entries_non_root(&store, &config(), &diffs, &mut writes).unwrap();
    assert_eq!(entries.len(), 1);
    let e = entry_for(&entries, "n").unwrap();
    assert!(e.deltas.is_empty());
    // the framed bytes (100 content + 4 header bytes) fit the 200-byte bound
    let framed = store.fetch_git_object_bytes(
        &oid(1),
        git_delta_manifest::store::HeaderState::Included,
    )
    .unwrap();
    assert_eq!(e.full_object.inlined_bytes.as_ref().unwrap(), &framed);
}

#[test]
fn single_parent_addition_gets_entry() {
    // one parent, a purely added path: one pair for one parent, so the path
    // is kept, with no delta to any parent
    let content = noise(50, 8);
    let store = ObjectStore { objects: vec![stored(1, content)] };
    let diffs = vec![vec![added("newfile", blob(1))]];
    let mut writes = Vec::new();
    let entries = gdm_v2_entries_non_root(&store, &config(), &diffs, &mut writes).unwrap();
    assert_eq!(entries.len(), 1);
    assert!(entry_for(&entries, "newfile").unwrap().deltas.is_empty());
}

#[test]
fn noop_changes_and_removals_are_dropped() {
    // a change whose two sides are the same object and a removal produce no
    // entries at all
    let store = ObjectStore { objects: vec![stored(1, noise(30, 9))] };
    let diffs = vec![vec![
        changed("same", blob(1), blob(1)),
        DiffEvent::Removed { path: b"gone".to_vec(), old: blob(1) },
    ]];
    let mut writes = Vec::new();
    let entries = gdm_v2_entries_non_root(&store, &config(), &diffs, &mut writes).unwrap();
    assert!(entries.is_empty());
}

#[test]
fn submodule_pairs_are_ignored() {
    // a submodule surfacing as the new side gets no entry; one surfacing as
    // the old side contributes no delta
    let content = noise(500, 10);
    let store = ObjectStore { objects: vec![stored(2, content)] };
    let diffs = vec![vec![
        changed("sub", submodule(1), submodule(1)),
        changed("was_sub", submodule(3), blob(2)),
        added("new_sub", submodule(4)),
    ]];
    let mut writes = Vec::new();
    let entries = gdm_v2_entries_non_root(&store, &config(), &diffs, &mut writes).unwrap();
    assert_eq!(entries.len(), 1);
    let e = entry_for(&entries, "was_sub").unwrap();
    assert!(e.deltas.is_empty());
    assert!(entry_for(&entries, "new_sub").is_none());
}

#[test]
fn inlining_threshold_is_exact() {
    let cfg = config();
    // exactly at the bound: inlined
    let at = vec![7u8; cfg.max_inlined_object_size];
    assert_eq!(inline_object(&cfg, at.clone()), Some(at));
    // one byte over: not inlined
    let over = vec![7u8; cfg.max_inlined_object_size + 1];
    assert_eq!(inline_object(&cfg, over), None);
}

#[test]
fn inlining_threshold_end_to_end() {
    // the same added file, with the bound set just below and just at its
    // framed size (100 content bytes + 4 header bytes)
    let content = noise(100, 12);
    let store = ObjectStore { objects: vec![stored(1, content)] };
    let diffs = vec![vec![added("n", blob(1))]];
    let mut cfg = config();
    cfg.max_inlined_object_size = 104;
    let mut writes = Vec::new();
    let entries = gdm_v2_entries_non_root(&store, &cfg, &diffs, &mut writes).unwrap();
    assert!(entry_for(&entries, "n").unwrap().full_object.inlined_bytes.is_some());
    cfg.max_inlined_object_size = 103;
    let mut writes2 = Vec::new();
    let entries2 = gdm_v2_entries_non_root(&store, &cfg, &diffs, &mut writes2).unwrap();
    assert!(entry_for(&entries2, "n").unwrap().full_object.inlined_bytes.is_none());
}

#[test]
fn derivation_is_idempotent() {
    // deriving the same commit twice yields the same identifier, and the
    // second run leaves the write side exactly as the first run left it
    let old_f = noise(1000, 13);
    let mut new_f = old_f.clone();
    new_f[1] ^= 3;
    let store = ObjectStore { objects: vec![stored(1, old_f), stored(2, new_f)] };
    let snapshot = CommitSnapshot {
        commit_id: vec![0xaa; 32],
        tree_listing: Vec::new(),
        parent_diffs: vec![vec![changed("f", blob(1), blob(2))]],
    };
    let mut blob_store = BlobStore::new();
    let id1 = RootGitDeltaManifestV2Id::derive_single(&config(), &snapshot, &store, &mut blob_store)
        .unwrap();
    let after_first = blob_store.blobs.clone();
    let id2 = RootGitDeltaManifestV2Id::derive_single(&config(), &snapshot, &store, &mut blob_store)
        .unwrap();
    assert_eq!(id1, id2);
    assert_eq!(blob_store.blobs, after_first);
    assert_eq!(id1.manifest_id().bytes.len(), 32);
    // a fresh run over an empty write side yields the same identifier too
    let mut fresh = BlobStore::new();
    let id3 = RootGitDeltaManifestV2Id::derive_single(&config(), &snapshot, &store, &mut fresh)
        .unwrap();
    assert_eq!(id1, id3);
    assert_eq!(fresh.blobs, after_first);
}

#[test]
fn derivation_failure_is_clean() {
    // a missing object fails the commit and leaves the write side untouched
    let old_f = noise(100, 14);
    let store = ObjectStore { objects: vec![stored(1, old_f)] };
    let snapshot = CommitSnapshot {
        commit_id: vec![0xbb; 32],
        tree_listing: Vec::new(),
        // the new side, object 9, is absent from the store
        parent_diffs: vec![vec![changed("f", blob(1), blob(9))]],
    };
    let mut blob_store = BlobStore::new();
    let r = RootGitDeltaManifestV2Id::derive_single(&config(), &snapshot, &store, &mut blob_store);
    match r {
        Err(git_delta_manifest::types::DeriveError::ObjectMissing { oid: o }) => {
            assert_eq!(o, oid(9));
        },
        _ => panic!("a missing object must fail the derivation"),
    }
    assert!(blob_store.blobs.is_empty());
}

#[test]
fn batch_derives_each_commit() {
    let content_a = noise(80, 15);
    let content_b = noise(90, 16);
    let store = ObjectStore {
        objects: vec![stored(1, content_a), stored(2, content_b)],
    };
    let snapshots = vec![
        CommitSnapshot {
            commit_id: vec![1; 32],
            tree_listing: vec![(b"a".to_vec(), blob(1))],
            parent_diffs: Vec::new(),
        },
        CommitSnapshot {
            commit_id: vec![2; 32],
            tree_listing: Vec::new(),
            parent_diffs: vec![vec![added("b", blob(2))]],
        },
    ];
    let mut blob_store = BlobStore::new();
    let out = RootGitDeltaManifestV2Id::derive_batch(
        &config(),
        &snapshots,
        &store,
        &mut blob_store,
    );
    assert_eq!(out.len(), 2);
    assert_eq!(out[0].0, vec![1; 32]);
    assert_eq!(out[1].0, vec![2; 32]);
    // each commit's manifest is stored under its identifier
    let id_a = out[0].1.as_ref().unwrap();
    let id_b = out[1].1.as_ref().unwrap();
    assert!(blob_store.get(&id_a.manifest_id().bytes).is_some());
    assert!(blob_store.get(&id_b.manifest_id().bytes).is_some());
    // the two manifests differ, so their identifiers differ
    assert_ne!(id_a, id_b);
}

#[test]
fn batch_reports_outcomes_independently() {
    // a failing commit in the middle of a batch reports its own error and
    // contributes nothing, while both siblings derive and stay persisted
    let content_a = noise(80, 17);
    let content_c = noise(70, 18);
    let store = ObjectStore {
        objects: vec![stored(1, content_a), stored(3, content_c)],
    };
    let snapshots = vec![
        CommitSnapshot {
            commit_id: vec![1; 32],
            tree_listing: vec![(b"a".to_vec(), blob(1))],
            parent_diffs: Vec::new(),
        },
        CommitSnapshot {
            commit_id: vec![2; 32],
            tree_listing: vec![(b"missing".to_vec(), blob(9))],
            parent_diffs: Vec::new(),
        },
        CommitSnapshot {
            commit_id: vec![3; 32],
            tree_listing: Vec::new(),
            parent_diffs: vec![vec![added("c", blob(3))]],
        },
    ];
    let mut blob_store = BlobStore::new();
    let out = RootGitDeltaManifestV2Id::derive_batch(&config(), &snapshots, &store, &mut blob_store);
    assert_eq!(out.len(), 3);
    assert!(out[0].1.is_ok());
    match &out[1].1 {
        Err(git_delta_manifest::types::DeriveError::ObjectMissing { oid: o }) => {
            assert_eq!(*o, oid(9));
        },
        _ => panic!("the commit with the absent object must fail alone"),
    }
    assert!(out[2].1.is_ok());
    // both healthy siblings' manifests are persisted; the failing commit
    // wrote nothing, so exactly two blobs exist
    assert_eq!(blob_store.blobs.len(), 2);
    assert!(blob_store.get(&out[0].1.as_ref().unwrap().manifest_id().bytes).is_some());
    assert!(blob_store.get(&out[2].1.as_ref().unwrap().manifest_id().bytes).is_some());
}
