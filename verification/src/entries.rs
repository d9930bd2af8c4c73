//! Manifest entries and the policy that produces them: the skip/keep rule
//! across parents, per-pair delta entries, chunked delta instructions and
//! the inlining of small full objects.

use vstd::prelude::*;

use crate::delta::{compute_raw_delta, delta_bytes_of, delta_exists};
use crate::group::{
    all_pairs, clone_member, distinct_paths, group_diffs_by_path, pair_views, pairs_for, views_of,
    PairV, PathGroup,
};
use crate::hashing::{content_digest, digest_of};
use crate::store::{HeaderState, ObjV, ObjectStore};
use crate::types::{DeriveError, DiffEvent, GitDeltaManifestV2Config, ObjectId, ObjectKind, TreeMember};

verus! {

/// Outcome of a spec-level construction that needs objects from the store:
/// either some needed object is absent, or the value is built.
#[verifier::ext_equal]
pub ghost enum SpecOutcome<T> {
    Missing,
    Made(T),
}

/// Mathematical image of an object entry.
#[verifier::ext_equal]
pub ghost struct ObjectEntryV {
    pub oid: Seq<u8>,
    pub size: nat,
    pub kind: ObjectKind,
    pub inlined: Option<Seq<u8>>,
}

/// Descriptor of one stored object version: identifier, kind, byte size and
/// an optional embedded payload, present only when the object was inlined.
pub struct ObjectEntry {
    pub oid: ObjectId,
    pub size: usize,
    pub kind: ObjectKind,
    pub inlined_bytes: Option<Vec<u8>>,
}

impl View for ObjectEntry {
    type V = ObjectEntryV;

    open spec fn view(&self) -> ObjectEntryV {
        ObjectEntryV {
            oid: self.oid@,
            size: self.size as nat,
            kind: self.kind,
            inlined: match self.inlined_bytes {
                Some(b) => Some(b@),
                None => None,
            },
        }
    }
}

/// Mathematical image of one instruction chunk.
#[verifier::ext_equal]
pub ghost enum ChunkV {
    Inlined(Seq<u8>),
    Stored(Seq<u8>),
}

/// One piece of the delta instruction bytes: embedded directly when small
/// enough, otherwise stored externally and referenced by content digest.
pub enum DeltaChunk {
    Inlined(Vec<u8>),
    Stored(ObjectId),
}

impl View for DeltaChunk {
    type V = ChunkV;

    open spec fn view(&self) -> ChunkV {
        match self {
            DeltaChunk::Inlined(b) => ChunkV::Inlined(b@),
            DeltaChunk::Stored(oid) => ChunkV::Stored(oid@),
        }
    }
}

/// Mathematical image of a delta's instructions.
#[verifier::ext_equal]
pub ghost struct InstructionsV {
    pub chunk_size: nat,
    pub max_inlined: nat,
    pub chunks: Seq<ChunkV>,
}

/// The delta payload: the encoded instruction bytes cut into fixed-size
/// chunks, with the chunk size and the inline threshold used when encoding.
pub struct Instructions {
    pub chunk_size: usize,
    pub max_inlined_delta_size: usize,
    pub chunks: Vec<DeltaChunk>,
}

impl View for Instructions {
    type V = InstructionsV;

    open spec fn view(&self) -> InstructionsV {
        InstructionsV {
            chunk_size: self.chunk_size as nat,
            max_inlined: self.max_inlined_delta_size as nat,
            chunks: Seq::new(self.chunks@.len(), |i: int| self.chunks@[i]@),
        }
    }
}

/// Mathematical image of a delta entry.
#[verifier::ext_equal]
pub ghost struct DeltaEntryV {
    pub base: ObjectEntryV,
    pub base_path: Seq<u8>,
    pub instructions: InstructionsV,
}

/// One reconstruction edge: the base object at a path (one parent's version
/// of the entry's object) and the instructions turning it into the new one.
pub struct DeltaEntry {
    pub base_object: ObjectEntry,
    pub base_object_path: Vec<u8>,
    pub instructions: Instructions,
}

impl View for DeltaEntry {
    type V = DeltaEntryV;

    open spec fn view(&self) -> DeltaEntryV {
        DeltaEntryV {
            base: self.base_object@,
            base_path: self.base_object_path@,
            instructions: self.instructions@,
        }
    }
}

/// Mathematical image of a manifest entry.
#[verifier::ext_equal]
pub ghost struct ManifestEntryV {
    pub full: ObjectEntryV,
    pub deltas: Seq<DeltaEntryV>,
}

/// One path's record: the full new object and zero or more deltas, one per
/// parent against which a beneficial delta was found.
pub struct ManifestEntry {
    pub full_object: ObjectEntry,
    pub deltas: Vec<DeltaEntry>,
}

impl View for ManifestEntry {
    type V = ManifestEntryV;

    open spec fn view(&self) -> ManifestEntryV {
        ManifestEntryV {
            full: self.full_object@,
            deltas: Seq::new(self.deltas@.len(), |i: int| self.deltas@[i]@),
        }
    }
}

/// The views of a sequence of (path, entry) records.
pub open spec fn entry_views(s: Seq<(Vec<u8>, ManifestEntry)>) -> Seq<(Seq<u8>, ManifestEntryV)> {
    Seq::new(s.len(), |i: int| (s[i].0@, s[i].1@))
}

/// The views of a sequence of (key, bytes) writes.
pub open spec fn write_views(s: Seq<(Vec<u8>, Vec<u8>)>) -> Seq<(Seq<u8>, Seq<u8>)> {
    Seq::new(s.len(), |i: int| (s[i].0@, s[i].1@))
}

/// The delta bytes cut into pieces of `chunk_size`; only the last piece may
/// be shorter. A zero chunk size leaves the bytes in one piece.
pub open spec fn chunk_split(d: Seq<u8>, chunk_size: nat) -> Seq<Seq<u8>>
    decreases d.len(),
{
    if d.len() == 0 {
        Seq::empty()
    } else if chunk_size == 0 || d.len() <= chunk_size {
        seq![d]
    } else {
        seq![d.take(chunk_size as int)] + chunk_split(d.skip(chunk_size as int), chunk_size)
    }
}

/// How one piece is kept: embedded when within the inline threshold, else
/// stored under its digest.
pub open spec fn chunk_of_piece(cfg: GitDeltaManifestV2Config, piece: Seq<u8>) -> ChunkV {
    if piece.len() <= cfg.max_inlined_delta_size {
        ChunkV::Inlined(piece)
    } else {
        ChunkV::Stored(digest_of(piece))
    }
}

/// The images of the pieces once kept as chunks.
pub open spec fn chunk_images(cfg: GitDeltaManifestV2Config, pieces: Seq<Seq<u8>>) -> Seq<ChunkV> {
    Seq::new(pieces.len(), |i: int| chunk_of_piece(cfg, pieces[i]))
}

/// The instructions wrapping the encoded delta bytes `d`.
pub open spec fn instructions_v(cfg: GitDeltaManifestV2Config, d: Seq<u8>) -> InstructionsV {
    InstructionsV {
        chunk_size: cfg.delta_chunk_size as nat,
        max_inlined: cfg.max_inlined_delta_size as nat,
        chunks: chunk_images(cfg, chunk_split(d, cfg.delta_chunk_size as nat)),
    }
}


/// The pieces of a split, concatenated.
pub open spec fn concat_pieces(s: Seq<Seq<u8>>) -> Seq<u8>
    decreases s.len(),
{
    if s.len() == 0 {
        Seq::empty()
    } else {
        concat_pieces(s.drop_last()) + s.last()
    }
}

/// Splitting loses nothing: the pieces concatenated are the split bytes.
pub proof fn lemma_chunk_split_concat(d: Seq<u8>, chunk_size: nat)
    ensures
        concat_pieces(chunk_split(d, chunk_size)) == d,
    decreases d.len(),
{
    if d.len() == 0 {
        assert(concat_pieces(chunk_split(d, chunk_size)) =~= d);
    } else if chunk_size == 0 || d.len() <= chunk_size {
        let pieces = chunk_split(d, chunk_size);
        assert(pieces =~= seq![d]);
        assert(pieces.drop_last() =~= Seq::<Seq<u8>>::empty());
        assert(concat_pieces(pieces.drop_last()) =~= Seq::<u8>::empty());
        assert(concat_pieces(pieces) =~= d);
    } else {
        lemma_chunk_split_concat(d.skip(chunk_size as int), chunk_size);
        lemma_concat_prepend(d.take(chunk_size as int), chunk_split(d.skip(chunk_size as int), chunk_size));
        assert(d.take(chunk_size as int) + d.skip(chunk_size as int) =~= d);
    }
}

/// Concatenation over a one-piece prefix decomposes into the prefix piece
/// followed by the rest's concatenation.
proof fn lemma_concat_prepend(head: Seq<u8>, rest: Seq<Seq<u8>>)
    ensures
        concat_pieces(seq![head] + rest) == head + concat_pieces(rest),
    decreases rest.len(),
{
    if rest.len() == 0 {
        let s = seq![head] + rest;
        assert(s =~= seq![head]);
        assert(s.drop_last() =~= Seq::<Seq<u8>>::empty());
        assert(concat_pieces(s.drop_last()) =~= Seq::<u8>::empty());
        assert(concat_pieces(rest) =~= Seq::<u8>::empty());
        assert(concat_pieces(s) =~= head + concat_pieces(rest));
    } else {
        let s = seq![head] + rest;
        assert(s.drop_last() =~= seq![head] + rest.drop_last());
        assert(s.last() == rest.last());
        lemma_concat_prepend(head, rest.drop_last());
        assert(concat_pieces(s) =~= head + concat_pieces(rest));
    }
}

/// The store writes the pieces demand: one per piece over the inline
/// threshold, keyed by the piece's digest.
pub open spec fn piece_writes(cfg: GitDeltaManifestV2Config, pieces: Seq<Seq<u8>>) -> Seq<
    (Seq<u8>, Seq<u8>),
>
    decreases pieces.len(),
{
    if pieces.len() == 0 {
        Seq::empty()
    } else {
        piece_writes(cfg, pieces.drop_last()) + (if pieces.last().len()
            > cfg.max_inlined_delta_size {
            seq![(digest_of(pieces.last()), pieces.last())]
        } else {
            Seq::empty()
        })
    }
}

/// The store writes of the delta bytes `d` once chunked.
pub open spec fn delta_writes(cfg: GitDeltaManifestV2Config, d: Seq<u8>) -> Seq<(Seq<u8>, Seq<u8>)> {
    piece_writes(cfg, chunk_split(d, cfg.delta_chunk_size as nat))
}

/// Cut the encoded delta bytes into chunks, embedding each piece within the
/// inline threshold and storing every other piece under its digest, and
/// record the stores to perform in `writes`.
pub fn make_instructions(
    cfg: &GitDeltaManifestV2Config,
    d: &Vec<u8>,
    writes: &mut Vec<(Vec<u8>, Vec<u8>)>,
) -> (r: Instructions)
    ensures
        r@ == instructions_v(*cfg, d@),
        write_views(final(writes)@) == write_views(old(writes)@) + delta_writes(*cfg, d@),
{
    let ghost cs = cfg.delta_chunk_size as nat;
    let mut chunks: Vec<DeltaChunk> = Vec::new();
    let mut off: usize = 0;
    proof {
        assert(d@.skip(0) =~= d@);
    }
    while off < d.len()
        invariant
            off <= d.len(),
            cs == cfg.delta_chunk_size as nat,
            chunk_views(chunks@) + chunk_images(*cfg, chunk_split(d@.skip(off as int), cs))
                =~= chunk_images(*cfg, chunk_split(d@, cs)),
            write_views(writes@) + piece_writes(*cfg, chunk_split(d@.skip(off as int), cs))
                =~= write_views(old(writes)@) + delta_writes(*cfg, d@),
        decreases d.len() - off,
    {
        let end = if cfg.delta_chunk_size == 0 || d.len() - off <= cfg.delta_chunk_size {
            d.len()
        } else {
            off + cfg.delta_chunk_size
        };
        let ghost rem = d@.skip(off as int);
        let mut piece: Vec<u8> = Vec::new();
        crate::delta::push_range(&mut piece, d, off, end);
        let ghost rest = d@.skip(end as int);
        proof {
            lemma_split_steps(rem, cs, *cfg);
            if cs == 0 || rem.len() <= cs {
                assert(piece@ =~= rem);
                assert(rest =~= Seq::<u8>::empty());
                assert(chunk_split(rest, cs) =~= Seq::<Seq<u8>>::empty());
                assert(chunk_split(rem, cs) =~= seq![piece@] + chunk_split(rest, cs));
            } else {
                assert(piece@ =~= rem.take(cs as int));
                assert(rest =~= rem.skip(cs as int));
                assert(chunk_split(rem, cs) =~= seq![piece@] + chunk_split(rest, cs));
            }
            assert(piece_writes(*cfg, chunk_split(rem, cs)) =~= (if piece@.len()
                > cfg.max_inlined_delta_size {
                seq![(digest_of(piece@), piece@)]
            } else {
                Seq::<(Seq<u8>, Seq<u8>)>::empty()
            }) + piece_writes(*cfg, chunk_split(rest, cs))) by {
                lemma_piece_writes_prepend(*cfg, piece@, chunk_split(rest, cs));
            }
            assert(chunk_images(*cfg, chunk_split(rem, cs)) =~= seq![chunk_of_piece(*cfg, piece@)]
                + chunk_images(*cfg, chunk_split(rest, cs)));
        }
        let ghost prior_chunks = chunks@;
        let ghost prior_writes = writes@;
        let ghost piece_v = piece@;
        if piece.len() <= cfg.max_inlined_delta_size {
            chunks.push(DeltaChunk::Inlined(piece));
        } else {
            let dig = content_digest(&piece);
            chunks.push(DeltaChunk::Stored(ObjectId { bytes: crate::bytes::copy_bytes(&dig) }));
            writes.push((dig, piece));
        }
        off = end;
        proof {
            assert(chunk_views(chunks@) =~= chunk_views(prior_chunks).push(
                chunk_of_piece(*cfg, piece_v),
            ));
            if piece_v.len() > cfg.max_inlined_delta_size {
                assert(write_views(writes@) =~= write_views(prior_writes).push(
                    (digest_of(piece_v), piece_v),
                ));
            } else {
                assert(write_views(writes@) =~= write_views(prior_writes));
            }
            assert(chunk_views(chunks@) + chunk_images(*cfg, chunk_split(rest, cs))
                =~= chunk_views(prior_chunks) + chunk_images(*cfg, chunk_split(rem, cs)));
            assert(write_views(writes@) + piece_writes(*cfg, chunk_split(rest, cs))
                =~= write_views(prior_writes) + piece_writes(*cfg, chunk_split(rem, cs)));
        }
    }
    proof {
        assert(d@.skip(d@.len() as int) =~= Seq::<u8>::empty());
        assert(chunk_split(d@.skip(d@.len() as int), cs) =~= Seq::<Seq<u8>>::empty());
        assert(chunk_views(chunks@) =~= chunk_images(*cfg, chunk_split(d@, cs)));
        assert(write_views(writes@) =~= write_views(old(writes)@) + delta_writes(*cfg, d@));
    }
    let r = Instructions {
        chunk_size: cfg.delta_chunk_size,
        max_inlined_delta_size: cfg.max_inlined_delta_size,
        chunks,
    };
    proof {
        assert(r@.chunks =~= instructions_v(*cfg, d@).chunks);
    }
    r
}

/// The views of a sequence of chunks.
pub open spec fn chunk_views(s: Seq<DeltaChunk>) -> Seq<ChunkV> {
    Seq::new(s.len(), |i: int| s[i]@)
}

/// Splitting a non-empty byte string steps once: the first piece, then the
/// split of the rest; the writes and chunk images of the split decompose the
/// same way.
proof fn lemma_split_steps(rem: Seq<u8>, cs: nat, cfg: GitDeltaManifestV2Config)
    requires
        rem.len() > 0,
        cs == cfg.delta_chunk_size as nat,
    ensures
        cs == 0 || rem.len() <= cs ==> chunk_split(rem, cs) == seq![rem] && piece_writes(
            cfg,
            chunk_split(rem, cs),
        ) == (if rem.len() > cfg.max_inlined_delta_size {
            seq![(digest_of(rem), rem)]
        } else {
            Seq::<(Seq<u8>, Seq<u8>)>::empty()
        }),
        !(cs == 0 || rem.len() <= cs) ==> chunk_split(rem, cs) == seq![rem.take(cs as int)]
            + chunk_split(rem.skip(cs as int), cs) && piece_writes(cfg, chunk_split(rem, cs)) == (
        if rem.take(cs as int).len() > cfg.max_inlined_delta_size {
            seq![(digest_of(rem.take(cs as int)), rem.take(cs as int))]
        } else {
            Seq::<(Seq<u8>, Seq<u8>)>::empty()
        }) + piece_writes(cfg, chunk_split(rem.skip(cs as int), cs)),
{
    if cs == 0 || rem.len() <= cs {
        let pieces = chunk_split(rem, cs);
        assert(pieces =~= seq![rem]);
        assert(pieces.drop_last() =~= Seq::<Seq<u8>>::empty());
        assert(pieces.last() == rem);
        assert(piece_writes(cfg, pieces.drop_last()) =~= Seq::<(Seq<u8>, Seq<u8>)>::empty());
        assert(piece_writes(cfg, pieces) =~= (if rem.len() > cfg.max_inlined_delta_size {
            seq![(digest_of(rem), rem)]
        } else {
            Seq::<(Seq<u8>, Seq<u8>)>::empty()
        }));
    } else {
        lemma_piece_writes_prepend(cfg, rem.take(cs as int), chunk_split(rem.skip(cs as int), cs));
    }
}

/// `piece_writes` over a one-piece prefix concatenation decomposes into the
/// prefix piece's writes followed by the rest's writes.
proof fn lemma_piece_writes_prepend(
    cfg: GitDeltaManifestV2Config,
    head: Seq<u8>,
    rest: Seq<Seq<u8>>,
)
    ensures
        piece_writes(cfg, seq![head] + rest) == (if head.len() > cfg.max_inlined_delta_size {
            seq![(digest_of(head), head)]
        } else {
            Seq::<(Seq<u8>, Seq<u8>)>::empty()
        }) + piece_writes(cfg, rest),
    decreases rest.len(),
{
    if rest.len() == 0 {
        let s = seq![head] + rest;
        assert(s =~= seq![head]);
        assert(s.drop_last() =~= Seq::<Seq<u8>>::empty());
        assert(s.last() == head);
        assert(piece_writes(cfg, s.drop_last()) =~= Seq::<(Seq<u8>, Seq<u8>)>::empty());
        assert(piece_writes(cfg, rest) =~= Seq::<(Seq<u8>, Seq<u8>)>::empty());
        assert(piece_writes(cfg, s) =~= (if head.len() > cfg.max_inlined_delta_size {
            seq![(digest_of(head), head)]
        } else {
            Seq::<(Seq<u8>, Seq<u8>)>::empty()
        }) + piece_writes(cfg, rest));
    } else {
        let s = seq![head] + rest;
        assert(s.drop_last() =~= seq![head] + rest.drop_last());
        assert(s.last() == rest.last());
        lemma_piece_writes_prepend(cfg, head, rest.drop_last());
        assert(piece_writes(cfg, s) =~= (if head.len() > cfg.max_inlined_delta_size {
            seq![(digest_of(head), head)]
        } else {
            Seq::<(Seq<u8>, Seq<u8>)>::empty()
        }) + piece_writes(cfg, rest));
    }
}

/// The view of an optional byte vector.
pub open spec fn opt_bytes_view(o: Option<Vec<u8>>) -> Option<Seq<u8>> {
    match o {
        Some(b) => Some(b@),
        None => None,
    }
}

/// The views of a sequence of delta entries.
pub open spec fn delta_views(s: Seq<DeltaEntry>) -> Seq<DeltaEntryV> {
    Seq::new(s.len(), |i: int| s[i]@)
}

/// The object entry recorded for `mem`, with `inlined` as embedded payload:
/// its size is the length of the object's raw bytes in the store.
pub open spec fn object_entry_v(
    m: Map<Seq<u8>, ObjV>,
    mem: crate::types::MemberV,
    inlined: Option<Seq<u8>>,
) -> ObjectEntryV
    recommends
        m.contains_key(mem.oid),
{
    ObjectEntryV { oid: mem.oid, size: m[mem.oid].raw.len(), kind: mem.kind, inlined }
}

/// The delta entry one (old, new) pair yields: none when the path was added
/// or the old side is a submodule; a delta against the old object when one
/// within the size bound exists; otherwise none. Needs both objects' bytes.
pub open spec fn delta_entry_spec(
    m: Map<Seq<u8>, ObjV>,
    cfg: GitDeltaManifestV2Config,
    path: Seq<u8>,
    pair: PairV,
) -> SpecOutcome<Option<DeltaEntryV>> {
    match pair.old {
        None => SpecOutcome::Made(None),
        Some(old) => {
            if old.kind is Submodule {
                SpecOutcome::Made(None)
            } else if !m.contains_key(old.oid) || !m.contains_key(pair.new.oid) {
                SpecOutcome::Missing
            } else {
                let ob = m[old.oid].raw;
                let nb = m[pair.new.oid].raw;
                if delta_exists(ob, nb) {
                    SpecOutcome::Made(
                        Some(
                            DeltaEntryV {
                                base: object_entry_v(m, old, None),
                                base_path: path,
                                instructions: instructions_v(cfg, delta_bytes_of(ob, nb)),
                            },
                        ),
                    )
                } else {
                    SpecOutcome::Made(None)
                }
            }
        },
    }
}

/// The store writes one pair's delta demands.
pub open spec fn pair_writes(
    m: Map<Seq<u8>, ObjV>,
    cfg: GitDeltaManifestV2Config,
    pair: PairV,
) -> Seq<(Seq<u8>, Seq<u8>)> {
    match pair.old {
        None => Seq::empty(),
        Some(old) => {
            if old.kind is Submodule || !m.contains_key(old.oid) || !m.contains_key(pair.new.oid) {
                Seq::empty()
            } else {
                let ob = m[old.oid].raw;
                let nb = m[pair.new.oid].raw;
                if delta_exists(ob, nb) {
                    delta_writes(cfg, delta_bytes_of(ob, nb))
                } else {
                    Seq::empty()
                }
            }
        },
    }
}

/// The delta entries of a path's pairs, in pair order.
pub open spec fn deltas_spec(
    m: Map<Seq<u8>, ObjV>,
    cfg: GitDeltaManifestV2Config,
    path: Seq<u8>,
    pairs: Seq<PairV>,
) -> SpecOutcome<Seq<DeltaEntryV>>
    decreases pairs.len(),
{
    if pairs.len() == 0 {
        SpecOutcome::Made(Seq::empty())
    } else {
        match deltas_spec(m, cfg, path, pairs.drop_last()) {
            SpecOutcome::Missing => SpecOutcome::Missing,
            SpecOutcome::Made(rest) => match delta_entry_spec(m, cfg, path, pairs.last()) {
                SpecOutcome::Missing => SpecOutcome::Missing,
                SpecOutcome::Made(None) => SpecOutcome::Made(rest),
                SpecOutcome::Made(Some(de)) => SpecOutcome::Made(rest.push(de)),
            },
        }
    }
}

/// The store writes of a path's pairs, in pair order.
pub open spec fn pairs_writes(
    m: Map<Seq<u8>, ObjV>,
    cfg: GitDeltaManifestV2Config,
    pairs: Seq<PairV>,
) -> Seq<(Seq<u8>, Seq<u8>)>
    decreases pairs.len(),
{
    if pairs.len() == 0 {
        Seq::empty()
    } else {
        pairs_writes(m, cfg, pairs.drop_last()) + pair_writes(m, cfg, pairs.last())
    }
}

/// The manifest entry one grouped path yields. A path changed relative to
/// fewer than all parents gets no entry, nor does a submodule. Otherwise the
/// entry holds the new object and the pairs' deltas; when no delta was found
/// the new object's framed bytes are embedded if within the inline bound.
pub open spec fn entry_spec(
    m: Map<Seq<u8>, ObjV>,
    cfg: GitDeltaManifestV2Config,
    parent_count: nat,
    path: Seq<u8>,
    pairs: Seq<PairV>,
) -> SpecOutcome<Option<ManifestEntryV>> {
    if pairs.len() < parent_count || pairs.len() == 0 {
        SpecOutcome::Made(None)
    } else if pairs[0].new.kind is Submodule {
        SpecOutcome::Made(None)
    } else {
        match deltas_spec(m, cfg, path, pairs) {
            SpecOutcome::Missing => SpecOutcome::Missing,
            SpecOutcome::Made(ds) => {
                if !m.contains_key(pairs[0].new.oid) {
                    SpecOutcome::Missing
                } else {
                    let framed = m[pairs[0].new.oid].framed;
                    let inlined = if ds.len() == 0 && framed.len() <= cfg.max_inlined_object_size {
                        Some(framed)
                    } else {
                        None
                    };
                    SpecOutcome::Made(
                        Some(
                            ManifestEntryV {
                                full: object_entry_v(m, pairs[0].new, inlined),
                                deltas: ds,
                            },
                        ),
                    )
                }
            },
        }
    }
}

/// The store writes one grouped path demands.
pub open spec fn group_writes(
    m: Map<Seq<u8>, ObjV>,
    cfg: GitDeltaManifestV2Config,
    parent_count: nat,
    pairs: Seq<PairV>,
) -> Seq<(Seq<u8>, Seq<u8>)> {
    if pairs.len() < parent_count || pairs.len() == 0 || pairs[0].new.kind is Submodule {
        Seq::empty()
    } else {
        pairs_writes(m, cfg, pairs)
    }
}

/// The manifest entries of the grouped paths, paths in order.
pub open spec fn entries_over_paths(
    m: Map<Seq<u8>, ObjV>,
    cfg: GitDeltaManifestV2Config,
    parent_count: nat,
    ap: Seq<(Seq<u8>, PairV)>,
    paths: Seq<Seq<u8>>,
) -> SpecOutcome<Seq<(Seq<u8>, ManifestEntryV)>>
    decreases paths.len(),
{
    if paths.len() == 0 {
        SpecOutcome::Made(Seq::empty())
    } else {
        match entries_over_paths(m, cfg, parent_count, ap, paths.drop_last()) {
            SpecOutcome::Missing => SpecOutcome::Missing,
            SpecOutcome::Made(rest) => match entry_spec(
                m,
                cfg,
                parent_count,
                paths.last(),
                pairs_for(ap, paths.last()),
            ) {
                SpecOutcome::Missing => SpecOutcome::Missing,
                SpecOutcome::Made(None) => SpecOutcome::Made(rest),
                SpecOutcome::Made(Some(e)) => SpecOutcome::Made(rest.push((paths.last(), e))),
            },
        }
    }
}

/// The store writes of the grouped paths, paths in order.
pub open spec fn writes_over_paths(
    m: Map<Seq<u8>, ObjV>,
    cfg: GitDeltaManifestV2Config,
    parent_count: nat,
    ap: Seq<(Seq<u8>, PairV)>,
    paths: Seq<Seq<u8>>,
) -> Seq<(Seq<u8>, Seq<u8>)>
    decreases paths.len(),
{
    if paths.len() == 0 {
        Seq::empty()
    } else {
        writes_over_paths(m, cfg, parent_count, ap, paths.drop_last()) + group_writes(
            m,
            cfg,
            parent_count,
            pairs_for(ap, paths.last()),
        )
    }
}

/// The manifest entries of a commit with parents: its per-parent diffs,
/// grouped by path and run through the skip/keep policy.
pub open spec fn non_root_entries_spec(
    m: Map<Seq<u8>, ObjV>,
    cfg: GitDeltaManifestV2Config,
    diffs: Seq<Vec<DiffEvent>>,
) -> SpecOutcome<Seq<(Seq<u8>, ManifestEntryV)>> {
    entries_over_paths(m, cfg, diffs.len(), all_pairs(diffs), distinct_paths(all_pairs(diffs)))
}

/// The store writes of a commit with parents.
pub open spec fn non_root_writes_spec(
    m: Map<Seq<u8>, ObjV>,
    cfg: GitDeltaManifestV2Config,
    diffs: Seq<Vec<DiffEvent>>,
) -> Seq<(Seq<u8>, Seq<u8>)> {
    writes_over_paths(m, cfg, diffs.len(), all_pairs(diffs), distinct_paths(all_pairs(diffs)))
}

/// The manifest entries of a root commit: one entry per non-submodule
/// member of its tree, in listing order, each with no deltas.
pub open spec fn root_entries_spec(
    m: Map<Seq<u8>, ObjV>,
    listing: Seq<(Vec<u8>, TreeMember)>,
) -> SpecOutcome<Seq<(Seq<u8>, ManifestEntryV)>>
    decreases listing.len(),
{
    if listing.len() == 0 {
        SpecOutcome::Made(Seq::empty())
    } else {
        match root_entries_spec(m, listing.drop_last()) {
            SpecOutcome::Missing => SpecOutcome::Missing,
            SpecOutcome::Made(rest) => {
                if listing.last().1@.kind is Submodule {
                    SpecOutcome::Made(rest)
                } else if !m.contains_key(listing.last().1@.oid) {
                    SpecOutcome::Missing
                } else {
                    SpecOutcome::Made(
                        rest.push(
                            (
                                listing.last().0@,
                                ManifestEntryV {
                                    full: object_entry_v(m, listing.last().1@, None),
                                    deltas: Seq::empty(),
                                },
                            ),
                        ),
                    )
                }
            },
        }
    }
}

/// A missing object in a prefix of the pairs dooms the whole pair list.
proof fn lemma_deltas_missing_mono(
    m: Map<Seq<u8>, ObjV>,
    cfg: GitDeltaManifestV2Config,
    path: Seq<u8>,
    pairs: Seq<PairV>,
    i: int,
)
    requires
        0 <= i <= pairs.len(),
        deltas_spec(m, cfg, path, pairs.take(i)) is Missing,
    ensures
        deltas_spec(m, cfg, path, pairs) is Missing,
    decreases pairs.len() - i,
{
    if i == pairs.len() {
        assert(pairs.take(i) =~= pairs);
    } else {
        assert(pairs.take(i + 1).drop_last() =~= pairs.take(i));
        lemma_deltas_missing_mono(m, cfg, path, pairs, i + 1);
    }
}

/// A missing object in a prefix of the paths dooms the whole path list.
proof fn lemma_entries_missing_mono(
    m: Map<Seq<u8>, ObjV>,
    cfg: GitDeltaManifestV2Config,
    parent_count: nat,
    ap: Seq<(Seq<u8>, PairV)>,
    paths: Seq<Seq<u8>>,
    i: int,
)
    requires
        0 <= i <= paths.len(),
        entries_over_paths(m, cfg, parent_count, ap, paths.take(i)) is Missing,
    ensures
        entries_over_paths(m, cfg, parent_count, ap, paths) is Missing,
    decreases paths.len() - i,
{
    if i == paths.len() {
        assert(paths.take(i) =~= paths);
    } else {
        assert(paths.take(i + 1).drop_last() =~= paths.take(i));
        lemma_entries_missing_mono(m, cfg, parent_count, ap, paths, i + 1);
    }
}

/// A missing object in a prefix of the listing dooms the whole listing.
proof fn lemma_root_missing_mono(
    m: Map<Seq<u8>, ObjV>,
    listing: Seq<(Vec<u8>, TreeMember)>,
    i: int,
)
    requires
        0 <= i <= listing.len(),
        root_entries_spec(m, listing.take(i)) is Missing,
    ensures
        root_entries_spec(m, listing) is Missing,
    decreases listing.len() - i,
{
    if i == listing.len() {
        assert(listing.take(i) =~= listing);
    } else {
        assert(listing.take(i + 1).drop_last() =~= listing.take(i));
        lemma_root_missing_mono(m, listing, i + 1);
    }
}

impl ObjectEntry {
    /// The object entry describing one tree member, carrying `inlined_bytes`
    /// as embedded payload; the member's size is read from the store.
    pub fn from_tree_entry(
        store: &ObjectStore,
        member: &TreeMember,
        inlined_bytes: Option<Vec<u8>>,
    ) -> (r: Result<ObjectEntry, DeriveError>)
        ensures
            store@.contains_key(member@.oid) ==> (r matches Ok(e) && e@ == object_entry_v(
                store@,
                member@,
                opt_bytes_view(inlined_bytes),
            )),
            !store@.contains_key(member@.oid) ==> (r matches Err(e) && e
                matches DeriveError::ObjectMissing { oid: o } && o@ == member@.oid),
    {
        match store.object_size(&member.oid) {
            Ok(size) => Ok(
                ObjectEntry {
                    oid: ObjectId { bytes: crate::bytes::copy_bytes(&member.oid.bytes) },
                    size,
                    kind: member.kind,
                    inlined_bytes,
                },
            ),
            Err(e) => Err(e),
        }
    }
}

/// The inliner: a full object whose framed bytes fit the configured bound is
/// embedded as a ready-to-store payload; a larger one is not. Omission is
/// never an error.
pub fn inline_object(config: &GitDeltaManifestV2Config, framed_bytes: Vec<u8>) -> (r: Option<
    Vec<u8>,
>)
    ensures
        framed_bytes@.len() <= config.max_inlined_object_size ==> (r matches Some(b) && b@
            == framed_bytes@),
        framed_bytes@.len() > config.max_inlined_object_size ==> r is None,
{
    if framed_bytes.len() <= config.max_inlined_object_size {
        Some(framed_bytes)
    } else {
        None
    }
}

/// Build the delta entry for one (old, new) pair of a path, if the pair is
/// eligible and a delta within the size bound exists; record the stores its
/// chunks demand. Fails only when a needed object is absent.
pub fn create_delta_entry(
    store: &ObjectStore,
    config: &GitDeltaManifestV2Config,
    path: &Vec<u8>,
    pair: &crate::group::DiffPair,
    writes: &mut Vec<(Vec<u8>, Vec<u8>)>,
) -> (r: Result<Option<DeltaEntry>, DeriveError>)
    ensures
        r is Ok <==> !(delta_entry_spec(store@, *config, path@, pair@) is Missing),
        r matches Ok(d) ==> delta_entry_spec(store@, *config, path@, pair@) == SpecOutcome::Made(
            match d {
                Some(de) => Some(de@),
                None => None,
            },
        ) && write_views(final(writes)@) == write_views(old(writes)@) + pair_writes(
            store@,
            *config,
            pair@,
        ),
        r matches Err(e) ==> (e matches DeriveError::ObjectMissing { oid: o }
            && !store@.contains_key(o@)) && final(writes)@ == old(writes)@,
{
    let old_member = match &pair.old {
        Some(m) => m,
        None => {
            proof {
                assert(write_views(writes@) =~= write_views(writes@) + pair_writes(
                    store@,
                    *config,
                    pair@,
                ));
            }
            return Ok(None);
        },
    };
    if old_member.is_submodule() {
        proof {
            assert(write_views(writes@) =~= write_views(writes@) + pair_writes(
                store@,
                *config,
                pair@,
            ));
        }
        return Ok(None);
    }
    let old_object = match store.fetch_git_object_bytes(&old_member.oid, HeaderState::Excluded) {
        Ok(b) => b,
        Err(e) => {
            return Err(e);
        },
    };
    let new_object = match store.fetch_git_object_bytes(&pair.new.oid, HeaderState::Excluded) {
        Ok(b) => b,
        Err(e) => {
            return Err(e);
        },
    };
    let raw_delta = match compute_raw_delta(&old_object, &new_object) {
        Some(d) => d,
        None => {
            proof {
                assert(write_views(writes@) =~= write_views(writes@) + pair_writes(
                    store@,
                    *config,
                    pair@,
                ));
            }
            return Ok(None);
        },
    };
    let base_object = match ObjectEntry::from_tree_entry(store, old_member, None) {
        Ok(e) => e,
        Err(e) => {
            proof {
                assert(false);
            }
            return Err(e);
        },
    };
    let instructions = make_instructions(config, &raw_delta, writes);
    let de = DeltaEntry {
        base_object,
        base_object_path: crate::bytes::copy_bytes(path),
        instructions,
    };
    proof {
        assert(de@.base == object_entry_v(store@, pair@.old->0, None));
        assert(de@.instructions == instructions_v(
            *config,
            delta_bytes_of(store@[pair@.old->0.oid].raw, store@[pair@.new.oid].raw),
        ));
    }
    Ok(Some(de))
}

/// The manifest entries of a root commit: every non-submodule member of its
/// tree gets an entry with no deltas, in listing order.
pub fn gdm_v2_entries_root(store: &ObjectStore, tree_listing: &Vec<(Vec<u8>, TreeMember)>) -> (r:
    Result<Vec<(Vec<u8>, ManifestEntry)>, DeriveError>)
    ensures
        r is Ok <==> root_entries_spec(store@, tree_listing@) is Made,
        r matches Ok(es) ==> SpecOutcome::Made(entry_views(es@)) == root_entries_spec(
            store@,
            tree_listing@,
        ),
        r matches Err(e) ==> e matches DeriveError::ObjectMissing { oid: o }
            && !store@.contains_key(o@),
{
    let mut out: Vec<(Vec<u8>, ManifestEntry)> = Vec::new();
    let mut i: usize = 0;
    proof {
        assert(tree_listing@.take(0) =~= Seq::<(Vec<u8>, TreeMember)>::empty());
        assert(entry_views(out@) =~= Seq::<(Seq<u8>, ManifestEntryV)>::empty());
    }
    while i < tree_listing.len()
        invariant
            i <= tree_listing.len(),
            SpecOutcome::Made(entry_views(out@)) == root_entries_spec(
                store@,
                tree_listing@.take(i as int),
            ),
        decreases tree_listing.len() - i,
    {
        proof {
            assert(tree_listing@.take(i + 1).drop_last() =~= tree_listing@.take(i as int));
            assert(tree_listing@.take(i + 1).last() == tree_listing@[i as int]);
        }
        let member = &tree_listing[i].1;
        if !member.is_submodule() {
            let full_object = match ObjectEntry::from_tree_entry(store, member, None) {
                Ok(e) => e,
                Err(e) => {
                    proof {
                        lemma_root_missing_mono(store@, tree_listing@, i + 1);
                    }
                    return Err(e);
                },
            };
            let entry = ManifestEntry { full_object, deltas: Vec::new() };
            proof {
                assert(entry@.deltas =~= Seq::<DeltaEntryV>::empty());
                assert(entry@ == ManifestEntryV {
                    full: object_entry_v(store@, tree_listing@[i as int].1@, None),
                    deltas: Seq::empty(),
                });
            }
            let ghost prior = out@;
            out.push((crate::bytes::copy_bytes(&tree_listing[i].0), entry));
            proof {
                assert(entry_views(out@) =~= entry_views(prior).push(
                    (
                        tree_listing@[i as int].0@,
                        ManifestEntryV {
                            full: object_entry_v(store@, tree_listing@[i as int].1@, None),
                            deltas: Seq::empty(),
                        },
                    ),
                ));
            }
        }
        i += 1;
    }
    proof {
        assert(tree_listing@.take(tree_listing@.len() as int) =~= tree_listing@);
    }
    Ok(out)
}

/// The manifest entries of a commit with parents: group the per-parent
/// diffs by path, skip paths not changed relative to every parent and
/// submodules, compute per-parent deltas for the rest, and inline the new
/// object when no delta was found and it fits the bound. The stores that
/// the delta chunks demand are recorded in `writes`; on failure the caller
/// discards them.
#[verifier::rlimit(100)]
pub fn gdm_v2_entries_non_root(
    store: &ObjectStore,
    config: &GitDeltaManifestV2Config,
    parent_diffs: &Vec<Vec<DiffEvent>>,
    writes: &mut Vec<(Vec<u8>, Vec<u8>)>,
) -> (r: Result<Vec<(Vec<u8>, ManifestEntry)>, DeriveError>)
    ensures
        r is Ok <==> non_root_entries_spec(store@, *config, parent_diffs@) is Made,
        r matches Ok(es) ==> SpecOutcome::Made(entry_views(es@)) == non_root_entries_spec(
            store@,
            *config,
            parent_diffs@,
        ) && write_views(final(writes)@) == write_views(old(writes)@) + non_root_writes_spec(
            store@,
            *config,
            parent_diffs@,
        ),
        r matches Err(e) ==> e matches DeriveError::ObjectMissing { oid: o }
            && !store@.contains_key(o@),
{
    let parent_count = parent_diffs.len();
    let groups = group_diffs_by_path(parent_diffs);
    let ghost m = store@;
    let ghost cfg = *config;
    let ghost ap = all_pairs(parent_diffs@);
    let ghost dpaths = distinct_paths(ap);
    let ghost pc = parent_diffs@.len();

    let mut out: Vec<(Vec<u8>, ManifestEntry)> = Vec::new();
    let mut g: usize = 0;
    proof {
        assert(dpaths.take(0) =~= Seq::<Seq<u8>>::empty());
        assert(entry_views(out@) =~= Seq::<(Seq<u8>, ManifestEntryV)>::empty());
        assert(write_views(writes@) =~= write_views(old(writes)@) + writes_over_paths(
            m,
            cfg,
            pc,
            ap,
            dpaths.take(0),
        ));
        assert(views_of(groups@.map_values(|gr: PathGroup| gr.path)).len() == groups@.len());
    }
    while g < groups.len()
        invariant
            g <= groups.len(),
            m == store@,
            cfg == *config,
            parent_count == pc,
            pc == parent_diffs@.len(),
            ap == all_pairs(parent_diffs@),
            dpaths == distinct_paths(ap),
            groups@.len() == dpaths.len(),
            forall|t: int| 0 <= t < groups@.len() ==> #[trigger] groups@[t].path@ == dpaths[t],
            forall|t: int|
                0 <= t < groups@.len() ==> pair_views(#[trigger] groups@[t].pairs@) == pairs_for(
                    ap,
                    groups@[t].path@,
                ),
            SpecOutcome::Made(entry_views(out@)) == entries_over_paths(
                m,
                cfg,
                pc,
                ap,
                dpaths.take(g as int),
            ),
            write_views(writes@) == write_views(old(writes)@) + writes_over_paths(
                m,
                cfg,
                pc,
                ap,
                dpaths.take(g as int),
            ),
        decreases groups.len() - g,
    {
        proof {
            assert(dpaths.take(g + 1).drop_last() =~= dpaths.take(g as int));
            assert(dpaths.take(g + 1).last() == dpaths[g as int]);
        }
        let ghost gpath = dpaths[g as int];
        let ghost gpairs = pairs_for(ap, gpath);
        let pairs = &groups[g].pairs;
        proof {
            assert(pair_views(pairs@) == gpairs);
        }
        if pairs.len() < parent_count {
            g += 1;
            proof {
                assert(write_views(writes@) =~= write_views(old(writes)@) + writes_over_paths(
                    m,
                    cfg,
                    pc,
                    ap,
                    dpaths.take(g as int),
                ));
            }
            continue;
        }
        proof {
            crate::group::lemma_distinct_paths_complete(ap, gpath);
            crate::group::lemma_pairs_for_nonempty(ap, gpath);
            assert(gpairs.len() > 0);
        }
        let new_member = clone_member(&pairs[0].new);
        proof {
            assert(pairs@[0]@ == gpairs[0]);
            assert(new_member@ == gpairs[0].new);
        }
        if new_member.is_submodule() {
            g += 1;
            proof {
                assert(write_views(writes@) =~= write_views(old(writes)@) + writes_over_paths(
                    m,
                    cfg,
                    pc,
                    ap,
                    dpaths.take(g as int),
                ));
            }
            continue;
        }
        let ghost writes_at_group_start = writes@;

        // per-parent deltas for this path
        let mut deltas: Vec<DeltaEntry> = Vec::new();
        let mut p: usize = 0;
        proof {
            assert(gpairs.take(0) =~= Seq::<PairV>::empty());
            assert(delta_views(deltas@) =~= Seq::<DeltaEntryV>::empty());
            assert(write_views(writes@) =~= write_views(writes_at_group_start) + pairs_writes(
                m,
                cfg,
                gpairs.take(0),
            ));
        }
        while p < pairs.len()
            invariant
                p <= pairs.len(),
                m == store@,
                cfg == *config,
                pc == parent_diffs@.len(),
                ap == all_pairs(parent_diffs@),
                dpaths == distinct_paths(ap),
                g < groups@.len(),
                groups@.len() == dpaths.len(),
                pairs@ == groups@[g as int].pairs@,
                groups@[g as int].path@ == gpath,
                pair_views(pairs@) == gpairs,
                gpath == dpaths[g as int],
                gpairs == pairs_for(ap, gpath),
                gpairs.len() >= pc,
                gpairs.len() > 0,
                !(gpairs[0].new.kind is Submodule),
                SpecOutcome::Made(delta_views(deltas@)) == deltas_spec(
                    m,
                    cfg,
                    gpath,
                    gpairs.take(p as int),
                ),
                write_views(writes@) == write_views(writes_at_group_start) + pairs_writes(
                    m,
                    cfg,
                    gpairs.take(p as int),
                ),
            decreases pairs.len() - p,
        {
            proof {
                assert(gpairs.take(p + 1).drop_last() =~= gpairs.take(p as int));
                assert(gpairs.take(p + 1).last() == gpairs[p as int]);
                assert(pairs@[p as int]@ == gpairs[p as int]);
            }
            match create_delta_entry(store, config, &groups[g].path, &pairs[p], writes) {
                Ok(Some(de)) => {
                    let ghost prior = deltas@;
                    deltas.push(de);
                    proof {
                        assert(delta_views(deltas@) =~= delta_views(prior).push(de@));
                    }
                },
                Ok(None) => {},
                Err(e) => {
                    proof {
                        lemma_deltas_missing_mono(m, cfg, gpath, gpairs, p + 1);
                        assert(entry_spec(m, cfg, pc, gpath, gpairs) is Missing);
                        assert(dpaths.take(g + 1).drop_last() =~= dpaths.take(g as int));
                        assert(dpaths.take(g + 1).last() == dpaths[g as int]);
                        assert(entries_over_paths(m, cfg, pc, ap, dpaths.take(g + 1)) is Missing);
                        lemma_entries_missing_mono(m, cfg, pc, ap, dpaths, g + 1);
                        assert(dpaths.take(dpaths.len() as int) =~= dpaths);
                    }
                    return Err(e);
                },
            }
            p += 1;
        }
        proof {
            assert(gpairs.take(pairs@.len() as int) =~= gpairs);
        }
        let ghost ds = delta_views(deltas@);
        proof {
            assert(deltas_spec(m, cfg, gpath, gpairs) == SpecOutcome::Made(ds));
        }

        // inline the full object when no delta was found and it fits
        let inlined_bytes: Option<Vec<u8>> = if deltas.len() == 0 {
            match store.fetch_git_object_bytes(&new_member.oid, HeaderState::Included) {
                Ok(framed) => inline_object(config, framed),
                Err(e) => {
                    proof {
                        assert(entry_spec(m, cfg, pc, gpath, gpairs) is Missing);
                        assert(dpaths.take(g + 1).drop_last() =~= dpaths.take(g as int));
                        assert(dpaths.take(g + 1).last() == dpaths[g as int]);
                        assert(entries_over_paths(m, cfg, pc, ap, dpaths.take(g + 1)) is Missing);
                        lemma_entries_missing_mono(m, cfg, pc, ap, dpaths, g + 1);
                        assert(dpaths.take(dpaths.len() as int) =~= dpaths);
                    }
                    return Err(e);
                },
            }
        } else {
            None
        };
        let ghost inl = opt_bytes_view(inlined_bytes);
        let full_object = match ObjectEntry::from_tree_entry(store, &new_member, inlined_bytes) {
            Ok(e) => e,
            Err(e) => {
                proof {
                    assert(entry_spec(m, cfg, pc, gpath, gpairs) is Missing);
                    assert(dpaths.take(g + 1).drop_last() =~= dpaths.take(g as int));
                    assert(dpaths.take(g + 1).last() == dpaths[g as int]);
                    assert(entries_over_paths(m, cfg, pc, ap, dpaths.take(g + 1)) is Missing);
                    lemma_entries_missing_mono(m, cfg, pc, ap, dpaths, g + 1);
                    assert(dpaths.take(dpaths.len() as int) =~= dpaths);
                }
                return Err(e);
            },
        };
        let entry = ManifestEntry { full_object, deltas };
        let ghost ev = ManifestEntryV { full: object_entry_v(m, gpairs[0].new, inl), deltas: ds };
        proof {
            assert(entry@.deltas =~= ds);
            assert(entry@ == ev);
            assert(m.contains_key(gpairs[0].new.oid));
            assert(inl == (if ds.len() == 0 && m[gpairs[0].new.oid].framed.len()
                <= cfg.max_inlined_object_size {
                Some(m[gpairs[0].new.oid].framed)
            } else {
                None::<Seq<u8>>
            }));
            assert(entry_spec(m, cfg, pc, gpath, gpairs) == SpecOutcome::Made(Some(ev)));
        }
        let ghost prior_out = out@;
        out.push((crate::bytes::copy_bytes(&groups[g].path), entry));
        g += 1;
        proof {
            assert(entry_views(out@) =~= entry_views(prior_out).push((gpath, ev)));
            assert(write_views(writes@) =~= write_views(old(writes)@) + writes_over_paths(
                m,
                cfg,
                pc,
                ap,
                dpaths.take(g as int),
            ));
        }
    }
    proof {
        assert(dpaths.take(dpaths.len() as int) =~= dpaths);
    }
    Ok(out)
}

} // verus!
