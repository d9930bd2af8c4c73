//! Properties of the derivation, stated and proved over the same spec
//! functions the executable contracts use.

use vstd::prelude::*;

use crate::compress::zlib_size_of;
use crate::delta::{delta_bytes_of, delta_encoded_len, delta_exists};
use crate::derive::{derived_store_spec, store_after, CommitSnapshot};
use crate::entries::{
    entries_over_paths, entry_spec, non_root_entries_spec, root_entries_spec, ManifestEntryV,
    SpecOutcome,
};
use crate::group::{all_pairs, distinct_paths, pairs_for, PairV};
use crate::store::ObjV;
use crate::types::{DiffEvent, GitDeltaManifestV2Config, TreeMember};

verus! {

/// Root-commit totality: when a root commit derives, every non-submodule
/// member of its tree has a manifest entry, and that entry carries no
/// deltas.
pub proof fn lemma_root_commit_totality(
    m: Map<Seq<u8>, ObjV>,
    listing: Seq<(Vec<u8>, TreeMember)>,
    i: int,
)
    requires
        root_entries_spec(m, listing) is Made,
        0 <= i < listing.len(),
        !(listing[i].1@.kind is Submodule),
    ensures
        exists|j: int|
            0 <= j < root_entries_spec(m, listing)->Made_0.len() && (#[trigger] root_entries_spec(
                m,
                listing,
            )->Made_0[j]).0 == listing[i].0@ && root_entries_spec(m, listing)->Made_0[j].1.deltas.len()
                == 0,
    decreases listing.len(),
{
    let es = root_entries_spec(m, listing)->Made_0;
    if i == listing.len() - 1 {
        assert(es.last().0 == listing[i].0@ && es.last().1.deltas.len() == 0);
        assert(0 <= es.len() - 1 < es.len() && es[es.len() - 1].0 == listing[i].0@ && es[es.len()
            - 1].1.deltas.len() == 0);
    } else {
        assert(listing.drop_last()[i] == listing[i]);
        lemma_root_commit_totality(m, listing.drop_last(), i);
        let rest = root_entries_spec(m, listing.drop_last())->Made_0;
        let j = choose|j: int|
            0 <= j < rest.len() && (#[trigger] rest[j]).0 == listing.drop_last()[i].0@
                && rest[j].1.deltas.len() == 0;
        assert(es[j] == rest[j]);
    }
}

/// Unanimity skip over the grouped paths: a path with fewer recorded pairs
/// than parents never yields an entry.
proof fn lemma_skip_over_paths(
    m: Map<Seq<u8>, ObjV>,
    cfg: GitDeltaManifestV2Config,
    parent_count: nat,
    ap: Seq<(Seq<u8>, PairV)>,
    paths: Seq<Seq<u8>>,
    p: Seq<u8>,
)
    requires
        entries_over_paths(m, cfg, parent_count, ap, paths) is Made,
        pairs_for(ap, p).len() < parent_count,
    ensures
        forall|j: int|
            0 <= j < entries_over_paths(m, cfg, parent_count, ap, paths)->Made_0.len() ==> (
            #[trigger] entries_over_paths(m, cfg, parent_count, ap, paths)->Made_0[j]).0 != p,
    decreases paths.len(),
{
    if paths.len() > 0 {
        lemma_skip_over_paths(m, cfg, parent_count, ap, paths.drop_last(), p);
        let es = entries_over_paths(m, cfg, parent_count, ap, paths)->Made_0;
        let rest = entries_over_paths(m, cfg, parent_count, ap, paths.drop_last())->Made_0;
        assert forall|j: int| 0 <= j < es.len() implies (#[trigger] es[j]).0 != p by {
            if j < rest.len() {
                assert(es[j] == rest[j]);
            } else {
                // the last record was pushed, so its path passed the policy
                assert(es[j].0 == paths.last());
                assert(pairs_for(ap, paths.last()).len() >= parent_count);
            }
        }
    }
}

/// Unanimity skip rule: for a commit with parents, a path recorded against
/// some but not all parents — so some parent already holds the commit's
/// version — gets no manifest entry.
pub proof fn lemma_unanimity_skip(
    m: Map<Seq<u8>, ObjV>,
    cfg: GitDeltaManifestV2Config,
    diffs: Seq<Vec<DiffEvent>>,
    p: Seq<u8>,
)
    requires
        non_root_entries_spec(m, cfg, diffs) is Made,
        pairs_for(all_pairs(diffs), p).len() < diffs.len(),
    ensures
        forall|j: int|
            0 <= j < non_root_entries_spec(m, cfg, diffs)->Made_0.len() ==> (
            #[trigger] non_root_entries_spec(m, cfg, diffs)->Made_0[j]).0 != p,
{
    lemma_skip_over_paths(
        m,
        cfg,
        diffs.len(),
        all_pairs(diffs),
        distinct_paths(all_pairs(diffs)),
        p,
    );
}

/// Delta boundedness: whenever the codec produces a delta, its encoded size
/// stays within the zlib-compressed size of the new bytes.
pub proof fn lemma_delta_bounded(old: Seq<u8>, new: Seq<u8>)
    ensures
        delta_exists(old, new) ==> delta_bytes_of(old, new).len() <= zlib_size_of(new),
{
    assert(delta_bytes_of(old, new).len() == delta_encoded_len(old, new));
}

/// Inlining threshold: an entry kept for a path embeds the new object's
/// framed bytes exactly when the entry has no deltas and those bytes are
/// within the configured bound.
pub proof fn lemma_inline_threshold(
    m: Map<Seq<u8>, ObjV>,
    cfg: GitDeltaManifestV2Config,
    parent_count: nat,
    path: Seq<u8>,
    pairs: Seq<PairV>,
    e: ManifestEntryV,
)
    requires
        entry_spec(m, cfg, parent_count, path, pairs) == SpecOutcome::Made(Some(e)),
    ensures
        e.full.inlined is Some <==> e.deltas.len() == 0 && m[pairs[0].new.oid].framed.len()
            <= cfg.max_inlined_object_size,
        e.full.inlined matches Some(b) ==> b == m[pairs[0].new.oid].framed,
{
}

/// The value the last write of a key left, if the key was written at all.
pub open spec fn last_write(ws: Seq<(Seq<u8>, Seq<u8>)>, k: Seq<u8>) -> Option<Seq<u8>>
    decreases ws.len(),
{
    if ws.len() == 0 {
        None
    } else if ws.last().0 == k {
        Some(ws.last().1)
    } else {
        last_write(ws.drop_last(), k)
    }
}

/// What a store holds after a sequence of writes: each written key holds its
/// last written value; every other key is untouched.
pub proof fn lemma_store_after_char(b: Map<Seq<u8>, Seq<u8>>, ws: Seq<(Seq<u8>, Seq<u8>)>, k: Seq<u8>)
    ensures
        store_after(b, ws).contains_key(k) <==> b.contains_key(k) || last_write(ws, k) is Some,
        last_write(ws, k) matches Some(v) ==> store_after(b, ws).contains_key(k) && store_after(
            b,
            ws,
        )[k] == v,
        last_write(ws, k) is None && b.contains_key(k) ==> store_after(b, ws)[k] == b[k],
    decreases ws.len(),
{
    if ws.len() > 0 {
        lemma_store_after_char(b, ws.drop_last(), k);
    }
}

/// Repeating a sequence of writes changes nothing: the store is already at
/// the state those writes produce.
pub proof fn lemma_store_after_idempotent(b: Map<Seq<u8>, Seq<u8>>, ws: Seq<(Seq<u8>, Seq<u8>)>)
    ensures
        store_after(store_after(b, ws), ws) =~= store_after(b, ws),
{
    let once = store_after(b, ws);
    let twice = store_after(once, ws);
    assert forall|k: Seq<u8>| #[trigger] twice.contains_key(k) implies once.contains_key(k) && twice[k]
        == once[k] by {
        lemma_store_after_char(b, ws, k);
        lemma_store_after_char(once, ws, k);
    }
    assert forall|k: Seq<u8>| #[trigger] once.contains_key(k) implies twice.contains_key(k) by {
        lemma_store_after_char(b, ws, k);
        lemma_store_after_char(once, ws, k);
    }
}

/// Idempotence of derivation: the manifest identifier is a function of the
/// commit's snapshot, the object store and the configuration alone, so
/// deriving the same commit again yields the identifier the first run
/// yielded, and persisting its writes again leaves the write side exactly
/// as the first run left it.
pub proof fn lemma_derive_idempotent(
    b: Map<Seq<u8>, Seq<u8>>,
    m: Map<Seq<u8>, ObjV>,
    cfg: GitDeltaManifestV2Config,
    snap: CommitSnapshot,
)
    ensures
        derived_store_spec(derived_store_spec(b, m, cfg, snap), m, cfg, snap)
            =~= derived_store_spec(b, m, cfg, snap),
{
    let ws = crate::derive::derived_writes_spec(m, cfg, snap);
    let id = crate::derive::derived_id_spec(m, cfg, snap);
    let once = derived_store_spec(b, m, cfg, snap);
    let twice = derived_store_spec(once, m, cfg, snap);
    assert forall|k: Seq<u8>| #[trigger] twice.contains_key(k) implies once.contains_key(k)
        && twice[k] == once[k] by {
        if k != id {
            lemma_store_after_char(b, ws, k);
            lemma_store_after_char(once, ws, k);
        }
    }
    assert forall|k: Seq<u8>| #[trigger] once.contains_key(k) implies twice.contains_key(k) by {
        if k != id {
            lemma_store_after_char(b, ws, k);
            lemma_store_after_char(once, ws, k);
        }
    }
}

/// Over distinct grouped paths, the entries keep distinct paths, each taken
/// from the grouped paths.
proof fn lemma_entries_paths_unique(
    m: Map<Seq<u8>, ObjV>,
    cfg: GitDeltaManifestV2Config,
    parent_count: nat,
    ap: Seq<(Seq<u8>, PairV)>,
    paths: Seq<Seq<u8>>,
)
    requires
        entries_over_paths(m, cfg, parent_count, ap, paths) is Made,
        forall|i: int, j: int| 0 <= i < j < paths.len() ==> paths[i] != paths[j],
    ensures
        forall|k: int|
            0 <= k < entries_over_paths(m, cfg, parent_count, ap, paths)->Made_0.len()
                ==> crate::group::path_in(
                paths,
                (#[trigger] entries_over_paths(m, cfg, parent_count, ap, paths)->Made_0[k]).0,
            ),
        forall|i: int, j: int|
            0 <= i < j < entries_over_paths(m, cfg, parent_count, ap, paths)->Made_0.len() ==> (
            #[trigger] entries_over_paths(m, cfg, parent_count, ap, paths)->Made_0[i]).0 != (
            #[trigger] entries_over_paths(m, cfg, parent_count, ap, paths)->Made_0[j]).0,
    decreases paths.len(),
{
    if paths.len() > 0 {
        assert(forall|i: int, j: int|
            0 <= i < j < paths.drop_last().len() ==> paths.drop_last()[i] != paths.drop_last()[j]);
        lemma_entries_paths_unique(m, cfg, parent_count, ap, paths.drop_last());
        let es = entries_over_paths(m, cfg, parent_count, ap, paths)->Made_0;
        let rest = entries_over_paths(m, cfg, parent_count, ap, paths.drop_last())->Made_0;
        assert forall|k: int| 0 <= k < es.len() implies crate::group::path_in(
            paths,
            (#[trigger] es[k]).0,
        ) by {
            if k < rest.len() {
                assert(es[k] == rest[k]);
                let u = choose|u: int|
                    0 <= u < paths.drop_last().len() && paths.drop_last()[u] == rest[k].0;
                assert(paths[u] == rest[k].0);
            } else {
                assert(es[k].0 == paths.last());
                assert(paths[paths.len() - 1] == paths.last());
            }
        }
        assert forall|i: int, j: int| 0 <= i < j < es.len() implies (#[trigger] es[i]).0 != (
        #[trigger] es[j]).0 by {
            if j == es.len() - 1 && es.len() == rest.len() + 1 {
                // the pushed path is the last grouped path, which the
                // earlier entries, all drawn from earlier paths, never use
                assert(es[i] == rest[i]);
                let u = choose|u: int|
                    0 <= u < paths.drop_last().len() && paths.drop_last()[u] == rest[i].0;
                assert(paths[u] == rest[i].0);
                assert(paths[paths.len() - 1] == paths.last());
            }
        }
    }
}

/// Manifest keys are unique: a derived commit's entries never record one
/// path twice.
pub proof fn lemma_manifest_paths_unique(
    m: Map<Seq<u8>, ObjV>,
    cfg: GitDeltaManifestV2Config,
    diffs: Seq<Vec<DiffEvent>>,
)
    requires
        non_root_entries_spec(m, cfg, diffs) is Made,
    ensures
        forall|i: int, j: int|
            0 <= i < j < non_root_entries_spec(m, cfg, diffs)->Made_0.len() ==> (
            #[trigger] non_root_entries_spec(m, cfg, diffs)->Made_0[i]).0 != (
            #[trigger] non_root_entries_spec(m, cfg, diffs)->Made_0[j]).0,
{
    let ap = all_pairs(diffs);
    crate::group::lemma_distinct_paths_distinct(ap);
    lemma_entries_paths_unique(m, cfg, diffs.len(), ap, distinct_paths(ap));
}

/// A kept delta reconstructs: the instruction bytes recorded for a pair,
/// chunked as they stand in the entry, concatenate back to the encoded
/// delta, and applying that delta to the parent's raw bytes yields exactly
/// the commit's raw bytes. No partial or corrupt delta is ever recorded.
pub proof fn lemma_delta_entry_reconstructs(
    m: Map<Seq<u8>, ObjV>,
    cfg: GitDeltaManifestV2Config,
    path: Seq<u8>,
    pair: crate::group::PairV,
    de: crate::entries::DeltaEntryV,
)
    requires
        crate::entries::delta_entry_spec(m, cfg, path, pair) == SpecOutcome::Made(Some(de)),
        m[pair.old->0.oid].raw.len() <= u64::MAX,
        m[pair.new.oid].raw.len() <= u64::MAX,
    ensures
        crate::entries::concat_pieces(
            crate::entries::chunk_split(
                delta_bytes_of(m[pair.old->0.oid].raw, m[pair.new.oid].raw),
                cfg.delta_chunk_size as nat,
            ),
        ) == delta_bytes_of(m[pair.old->0.oid].raw, m[pair.new.oid].raw),
        crate::delta::apply_delta_spec(
            m[pair.old->0.oid].raw,
            delta_bytes_of(m[pair.old->0.oid].raw, m[pair.new.oid].raw),
        ) == Some(m[pair.new.oid].raw),
        de.instructions == crate::entries::instructions_v(
            cfg,
            delta_bytes_of(m[pair.old->0.oid].raw, m[pair.new.oid].raw),
        ),
{
    let ob = m[pair.old->0.oid].raw;
    let nb = m[pair.new.oid].raw;
    crate::entries::lemma_chunk_split_concat(delta_bytes_of(ob, nb), cfg.delta_chunk_size as nat);
    crate::delta::lemma_delta_applies(ob, nb);
}

} // verus!
