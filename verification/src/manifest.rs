//! The manifest assembler: the per-path entries are aggregated into one
//! manifest, serialized deterministically (lengths as little-endian
//! integers before each variable-length field), and persisted under the
//! digest of the serialized bytes. Equal entries therefore always yield an
//! equal content identifier.

use vstd::prelude::*;

use crate::bytes::{push_all, push_u64_le, u64_le};
use crate::entries::{
    entry_views, ChunkV, DeltaChunk, DeltaEntry, DeltaEntryV, InstructionsV, Instructions,
    ManifestEntry, ManifestEntryV, ObjectEntry, ObjectEntryV,
};
use crate::hashing::{content_digest, digest_of};
use crate::store::BlobStore;
use crate::types::ObjectKind;

verus! {

/// A length-prefixed byte string.
pub open spec fn enc_bytes(b: Seq<u8>) -> Seq<u8> {
    u64_le(b.len() as u64) + b
}

/// The byte tag of an object kind.
pub open spec fn kind_byte(k: ObjectKind) -> u8 {
    match k {
        ObjectKind::Blob => 0,
        ObjectKind::Tree => 1,
        ObjectKind::Submodule => 2,
    }
}

/// An optional byte string: an absence tag, or a presence tag and the bytes.
pub open spec fn enc_opt_bytes(o: Option<Seq<u8>>) -> Seq<u8> {
    match o {
        None => seq![0u8],
        Some(b) => seq![1u8] + enc_bytes(b),
    }
}

/// An object entry: identifier, size, kind, optional embedded payload.
pub open spec fn enc_object(o: ObjectEntryV) -> Seq<u8> {
    enc_bytes(o.oid) + u64_le(o.size as u64) + seq![kind_byte(o.kind)] + enc_opt_bytes(o.inlined)
}

/// One instruction chunk: embedded bytes, or a stored chunk's digest.
pub open spec fn enc_chunk(c: ChunkV) -> Seq<u8> {
    match c {
        ChunkV::Inlined(b) => seq![0u8] + enc_bytes(b),
        ChunkV::Stored(d) => seq![1u8] + enc_bytes(d),
    }
}

/// The chunks in order.
pub open spec fn enc_chunks(s: Seq<ChunkV>) -> Seq<u8>
    decreases s.len(),
{
    if s.len() == 0 {
        Seq::empty()
    } else {
        enc_chunks(s.drop_last()) + enc_chunk(s.last())
    }
}

/// A delta's instructions: chunk size, inline threshold, chunk count, chunks.
pub open spec fn enc_instructions(i: InstructionsV) -> Seq<u8> {
    u64_le(i.chunk_size as u64) + u64_le(i.max_inlined as u64) + u64_le(i.chunks.len() as u64)
        + enc_chunks(i.chunks)
}

/// A delta entry: base object, base path, instructions.
pub open spec fn enc_delta(d: DeltaEntryV) -> Seq<u8> {
    enc_object(d.base) + enc_bytes(d.base_path) + enc_instructions(d.instructions)
}

/// The delta entries in order.
pub open spec fn enc_deltas(s: Seq<DeltaEntryV>) -> Seq<u8>
    decreases s.len(),
{
    if s.len() == 0 {
        Seq::empty()
    } else {
        enc_deltas(s.drop_last()) + enc_delta(s.last())
    }
}

/// A manifest entry: the full object, the delta count, the deltas.
pub open spec fn enc_entry(e: ManifestEntryV) -> Seq<u8> {
    enc_object(e.full) + u64_le(e.deltas.len() as u64) + enc_deltas(e.deltas)
}

/// The (path, entry) records in order.
pub open spec fn enc_entries(s: Seq<(Seq<u8>, ManifestEntryV)>) -> Seq<u8>
    decreases s.len(),
{
    if s.len() == 0 {
        Seq::empty()
    } else {
        enc_entries(s.drop_last()) + enc_bytes(s.last().0) + enc_entry(s.last().1)
    }
}

/// The serialized manifest: the entry count, then the records in order.
pub open spec fn manifest_bytes_of(entries: Seq<(Seq<u8>, ManifestEntryV)>) -> Seq<u8> {
    u64_le(entries.len() as u64) + enc_entries(entries)
}

/// The content identifier a set of entries is persisted under.
pub open spec fn manifest_id_of(entries: Seq<(Seq<u8>, ManifestEntryV)>) -> Seq<u8> {
    digest_of(manifest_bytes_of(entries))
}

/// Append a length-prefixed byte string.
fn push_bytes_enc(dst: &mut Vec<u8>, b: &Vec<u8>)
    ensures
        final(dst)@ == old(dst)@ + enc_bytes(b@),
{
    push_u64_le(dst, b.len() as u64);
    push_all(dst, b);
}

/// Append one object entry.
fn push_object(dst: &mut Vec<u8>, o: &ObjectEntry)
    ensures
        final(dst)@ == old(dst)@ + enc_object(o@),
{
    push_bytes_enc(dst, &o.oid.bytes);
    push_u64_le(dst, o.size as u64);
    match o.kind {
        ObjectKind::Blob => dst.push(0),
        ObjectKind::Tree => dst.push(1),
        ObjectKind::Submodule => dst.push(2),
    }
    match &o.inlined_bytes {
        None => dst.push(0),
        Some(b) => {
            dst.push(1);
            push_bytes_enc(dst, b);
        },
    }
    proof {
        assert(dst@ =~= old(dst)@ + enc_object(o@));
    }
}

/// Append one instruction chunk.
fn push_chunk(dst: &mut Vec<u8>, c: &DeltaChunk)
    ensures
        final(dst)@ == old(dst)@ + enc_chunk(c@),
{
    match c {
        DeltaChunk::Inlined(b) => {
            dst.push(0);
            push_bytes_enc(dst, b);
        },
        DeltaChunk::Stored(oid) => {
            dst.push(1);
            push_bytes_enc(dst, &oid.bytes);
        },
    }
    proof {
        assert(dst@ =~= old(dst)@ + enc_chunk(c@));
    }
}

/// Append a delta's instructions.
fn push_instructions(dst: &mut Vec<u8>, ins: &Instructions)
    ensures
        final(dst)@ == old(dst)@ + enc_instructions(ins@),
{
    push_u64_le(dst, ins.chunk_size as u64);
    push_u64_le(dst, ins.max_inlined_delta_size as u64);
    push_u64_le(dst, ins.chunks.len() as u64);
    let ghost mid = dst@;
    let mut i: usize = 0;
    proof {
        assert(ins@.chunks.take(0) =~= Seq::<ChunkV>::empty());
    }
    while i < ins.chunks.len()
        invariant
            i <= ins.chunks.len(),
            dst@ == mid + enc_chunks(ins@.chunks.take(i as int)),
        decreases ins.chunks.len() - i,
    {
        proof {
            assert(ins@.chunks.take(i + 1).drop_last() =~= ins@.chunks.take(i as int));
            assert(ins@.chunks.take(i + 1).last() == ins@.chunks[i as int]);
            assert(ins@.chunks[i as int] == ins.chunks@[i as int]@);
        }
        push_chunk(dst, &ins.chunks[i]);
        i += 1;
        proof {
            assert(dst@ =~= mid + enc_chunks(ins@.chunks.take(i as int)));
        }
    }
    proof {
        assert(ins@.chunks.take(ins@.chunks.len() as int) =~= ins@.chunks);
        assert(dst@ =~= old(dst)@ + enc_instructions(ins@));
    }
}

/// Append one delta entry.
fn push_delta(dst: &mut Vec<u8>, d: &DeltaEntry)
    ensures
        final(dst)@ == old(dst)@ + enc_delta(d@),
{
    push_object(dst, &d.base_object);
    push_bytes_enc(dst, &d.base_object_path);
    push_instructions(dst, &d.instructions);
    proof {
        assert(dst@ =~= old(dst)@ + enc_delta(d@));
    }
}

/// Append one manifest entry.
fn push_entry(dst: &mut Vec<u8>, e: &ManifestEntry)
    ensures
        final(dst)@ == old(dst)@ + enc_entry(e@),
{
    push_object(dst, &e.full_object);
    push_u64_le(dst, e.deltas.len() as u64);
    let ghost mid = dst@;
    let mut i: usize = 0;
    proof {
        assert(e@.deltas.take(0) =~= Seq::<DeltaEntryV>::empty());
    }
    while i < e.deltas.len()
        invariant
            i <= e.deltas.len(),
            dst@ == mid + enc_deltas(e@.deltas.take(i as int)),
        decreases e.deltas.len() - i,
    {
        proof {
            assert(e@.deltas.take(i + 1).drop_last() =~= e@.deltas.take(i as int));
            assert(e@.deltas.take(i + 1).last() == e@.deltas[i as int]);
            assert(e@.deltas[i as int] == e.deltas@[i as int]@);
        }
        push_delta(dst, &e.deltas[i]);
        i += 1;
        proof {
            assert(dst@ =~= mid + enc_deltas(e@.deltas.take(i as int)));
        }
    }
    proof {
        assert(e@.deltas.take(e@.deltas.len() as int) =~= e@.deltas);
        assert(dst@ =~= old(dst)@ + enc_entry(e@));
    }
}

/// The content identifier of a persisted manifest.
#[derive(Clone, Debug, PartialEq, Eq, Hash)]
pub struct GitDeltaManifestV2Id {
    pub bytes: Vec<u8>,
}

impl GitDeltaManifestV2Id {
    /// A well-formed identifier carries exactly one digest's worth of bytes.
    pub open spec fn wf(&self) -> bool {
        self.bytes@.len() == crate::MANIFEST_ID_LEN
    }

    /// Parse an identifier from raw bytes; bytes of the wrong width are
    /// rejected.
    pub fn from_bytes(bytes: Vec<u8>) -> (r: Result<GitDeltaManifestV2Id, crate::types::DeriveError>)
        ensures
            bytes@.len() == crate::MANIFEST_ID_LEN ==> (r matches Ok(id) && id.bytes@ == bytes@
                && id.wf()),
            bytes@.len() != crate::MANIFEST_ID_LEN ==> (r matches Err(e) && e
                matches crate::types::DeriveError::BadIdBytes),
    {
        if bytes.len() == crate::MANIFEST_ID_LEN {
            Ok(GitDeltaManifestV2Id { bytes })
        } else {
            Err(crate::types::DeriveError::BadIdBytes)
        }
    }
}

/// A manifest: one entry per changed path, paths unique, persisted as one
/// content-addressed value.
pub struct Manifest {
    pub entries: Vec<(Vec<u8>, ManifestEntry)>,
}

impl View for Manifest {
    type V = Seq<(Seq<u8>, ManifestEntryV)>;

    open spec fn view(&self) -> Seq<(Seq<u8>, ManifestEntryV)> {
        entry_views(self.entries@)
    }
}

impl Manifest {
    /// Aggregate the per-path entries into one manifest. Aggregation drops
    /// nothing and reorders nothing.
    pub fn from_entries(entries: Vec<(Vec<u8>, ManifestEntry)>) -> (r: Manifest)
        ensures
            r@ == entry_views(entries@),
    {
        Manifest { entries }
    }

    /// The manifest's serialized bytes.
    pub fn to_bytes(&self) -> (r: Vec<u8>)
        ensures
            r@ == manifest_bytes_of(self@),
    {
        let mut out: Vec<u8> = Vec::new();
        push_u64_le(&mut out, self.entries.len() as u64);
        let ghost mid = out@;
        let mut i: usize = 0;
        proof {
            assert(self@.take(0) =~= Seq::<(Seq<u8>, ManifestEntryV)>::empty());
        }
        while i < self.entries.len()
            invariant
                i <= self.entries.len(),
                out@ == mid + enc_entries(self@.take(i as int)),
            decreases self.entries.len() - i,
        {
            proof {
                assert(self@.take(i + 1).drop_last() =~= self@.take(i as int));
                assert(self@.take(i + 1).last() == self@[i as int]);
                assert(self@[i as int] == (self.entries@[i as int].0@, self.entries@[i as int].1@));
            }
            push_bytes_enc(&mut out, &self.entries[i].0);
            push_entry(&mut out, &self.entries[i].1);
            i += 1;
            proof {
                assert(out@ =~= mid + enc_entries(self@.take(i as int)));
            }
        }
        proof {
            assert(self@.take(self@.len() as int) =~= self@);
            assert(out@ =~= manifest_bytes_of(self@));
        }
        out
    }

    /// Persist the manifest under the digest of its bytes and hand back its
    /// content identifier.
    pub fn store(&self, blob: &mut BlobStore) -> (r: GitDeltaManifestV2Id)
        ensures
            r.bytes@ == manifest_id_of(self@),
            r.wf(),
            final(blob)@ == old(blob)@.insert(manifest_id_of(self@), manifest_bytes_of(self@)),
    {
        let bytes = self.to_bytes();
        let key = content_digest(&bytes);
        let id = GitDeltaManifestV2Id { bytes: crate::bytes::copy_bytes(&key) };
        blob.put(key, bytes);
        id
    }
}

} // verus!
