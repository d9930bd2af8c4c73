//! In-memory models of the two storage collaborators: a read side holding
//! the objects a derivation may need, and a write side receiving the
//! manifest, its instruction chunks and the per-commit mapping. Both are
//! association lists viewed as maps; lookups take the first match.

use vstd::prelude::*;

use crate::types::{DeriveError, ObjectId};

verus! {

/// Whether object bytes are wanted with or without their storage framing.
#[derive(Clone, Copy, Debug, PartialEq, Eq, Structural)]
pub enum HeaderState {
    Included,
    Excluded,
}

/// One object held by the read side: its raw content bytes and its framed
/// bytes (content preceded by the storage header).
pub struct StoredObject {
    pub oid: ObjectId,
    pub raw: Vec<u8>,
    pub framed: Vec<u8>,
}

/// Mathematical image of one stored object.
pub ghost struct ObjV {
    pub raw: Seq<u8>,
    pub framed: Seq<u8>,
}

pub open spec fn obj_v(o: StoredObject) -> ObjV {
    ObjV { raw: o.raw@, framed: o.framed@ }
}

/// The map an object list denotes; on duplicate identifiers the earliest
/// entry wins, as lookups scan from the front.
pub open spec fn objects_map(s: Seq<StoredObject>) -> Map<Seq<u8>, ObjV>
    decreases s.len(),
{
    if s.len() == 0 {
        Map::empty()
    } else {
        objects_map(s.skip(1)).insert(s[0].oid@, obj_v(s[0]))
    }
}

/// The content-addressed source of object bytes.
pub struct ObjectStore {
    pub objects: Vec<StoredObject>,
}

impl View for ObjectStore {
    type V = Map<Seq<u8>, ObjV>;

    open spec fn view(&self) -> Map<Seq<u8>, ObjV> {
        objects_map(self.objects@)
    }
}

proof fn lemma_objects_map_contains(s: Seq<StoredObject>, k: Seq<u8>)
    ensures
        objects_map(s).contains_key(k) <==> exists|j: int| 0 <= j < s.len() && s[j].oid@ == k,
    decreases s.len(),
{
    if s.len() > 0 {
        lemma_objects_map_contains(s.skip(1), k);
        if s[0].oid@ != k && objects_map(s).contains_key(k) {
            let j = choose|j: int| 0 <= j < s.skip(1).len() && s.skip(1)[j].oid@ == k;
            assert(s[j + 1].oid@ == k);
        }
        if exists|j: int| 0 <= j < s.len() && s[j].oid@ == k {
            let j = choose|j: int| 0 <= j < s.len() && s[j].oid@ == k;
            if s[0].oid@ != k {
                assert(s.skip(1)[j - 1].oid@ == k);
            }
        }
    }
}

proof fn lemma_objects_map_first(s: Seq<StoredObject>, k: Seq<u8>, i: int)
    requires
        0 <= i < s.len(),
        s[i].oid@ == k,
        forall|j: int| 0 <= j < i ==> s[j].oid@ != k,
    ensures
        objects_map(s).contains_key(k),
        objects_map(s)[k] == obj_v(s[i]),
    decreases i,
{
    if i == 0 {
    } else {
        assert(s.skip(1)[i - 1] == s[i]);
        assert(forall|j: int| 0 <= j < i - 1 ==> s.skip(1)[j] == s[j + 1]);
        lemma_objects_map_first(s.skip(1), k, i - 1);
    }
}

impl ObjectStore {
    /// Fetch one object's bytes, framed or raw. Relays a missing object as
    /// the storage error of the derivation.
    pub fn fetch_git_object_bytes(&self, oid: &ObjectId, header: HeaderState) -> (r: Result<
        Vec<u8>,
        DeriveError,
    >)
        ensures
            self@.contains_key(oid@) ==> (r matches Ok(b) && b@ == (if header is Included {
                self@[oid@].framed
            } else {
                self@[oid@].raw
            })),
            !self@.contains_key(oid@) ==> (r matches Err(e) && e matches DeriveError::ObjectMissing {
                oid: m,
            } && m@ == oid@),
    {
        let mut i: usize = 0;
        while i < self.objects.len()
            invariant
                i <= self.objects.len(),
                forall|j: int| 0 <= j < i ==> self.objects@[j].oid@ != oid@,
            decreases self.objects.len() - i,
        {
            if crate::bytes::bytes_eq(&self.objects[i].oid.bytes, &oid.bytes) {
                proof {
                    lemma_objects_map_first(self.objects@, oid@, i as int);
                }
                let src = match header {
                    HeaderState::Included => &self.objects[i].framed,
                    HeaderState::Excluded => &self.objects[i].raw,
                };
                let mut out: Vec<u8> = Vec::new();
                crate::bytes::push_all(&mut out, src);
                return Ok(out);
            }
            i += 1;
        }
        proof {
            lemma_objects_map_contains(self.objects@, oid@);
        }
        Err(
            DeriveError::ObjectMissing {
                oid: ObjectId { bytes: crate::bytes::copy_bytes(&oid.bytes) },
            },
        )
    }

    /// The size in bytes of one object's raw content.
    pub fn object_size(&self, oid: &ObjectId) -> (r: Result<usize, DeriveError>)
        ensures
            self@.contains_key(oid@) ==> (r matches Ok(n) && n == self@[oid@].raw.len()),
            !self@.contains_key(oid@) ==> (r matches Err(e) && e matches DeriveError::ObjectMissing {
                oid: m,
            } && m@ == oid@),
    {
        match self.fetch_git_object_bytes(oid, HeaderState::Excluded) {
            Ok(b) => Ok(b.len()),
            Err(e) => Err(e),
        }
    }
}

/// The map a key-value list denotes; on duplicate keys the earliest entry
/// wins, as lookups scan from the front.
pub open spec fn blobs_map(s: Seq<(Vec<u8>, Vec<u8>)>) -> Map<Seq<u8>, Seq<u8>>
    decreases s.len(),
{
    if s.len() == 0 {
        Map::empty()
    } else {
        blobs_map(s.skip(1)).insert(s[0].0@, s[0].1@)
    }
}

/// The write side: a content-addressed sink for manifests, instruction
/// chunks and the per-commit mapping entries.
pub struct BlobStore {
    pub blobs: Vec<(Vec<u8>, Vec<u8>)>,
}

impl View for BlobStore {
    type V = Map<Seq<u8>, Seq<u8>>;

    open spec fn view(&self) -> Map<Seq<u8>, Seq<u8>> {
        blobs_map(self.blobs@)
    }
}

proof fn lemma_blobs_map_contains(s: Seq<(Vec<u8>, Vec<u8>)>, k: Seq<u8>)
    ensures
        blobs_map(s).contains_key(k) <==> exists|j: int| 0 <= j < s.len() && s[j].0@ == k,
    decreases s.len(),
{
    if s.len() > 0 {
        lemma_blobs_map_contains(s.skip(1), k);
        if s[0].0@ != k && blobs_map(s).contains_key(k) {
            let j = choose|j: int| 0 <= j < s.skip(1).len() && s.skip(1)[j].0@ == k;
            assert(s[j + 1].0@ == k);
        }
        if exists|j: int| 0 <= j < s.len() && s[j].0@ == k {
            let j = choose|j: int| 0 <= j < s.len() && s[j].0@ == k;
            if s[0].0@ != k {
                assert(s.skip(1)[j - 1].0@ == k);
            }
        }
    }
}

proof fn lemma_blobs_map_first(s: Seq<(Vec<u8>, Vec<u8>)>, k: Seq<u8>, i: int)
    requires
        0 <= i < s.len(),
        s[i].0@ == k,
        forall|j: int| 0 <= j < i ==> s[j].0@ != k,
    ensures
        blobs_map(s).contains_key(k),
        blobs_map(s)[k] == s[i].1@,
    decreases i,
{
    if i == 0 {
    } else {
        assert(s.skip(1)[i - 1] == s[i]);
        assert(forall|j: int| 0 <= j < i - 1 ==> s.skip(1)[j] == s[j + 1]);
        lemma_blobs_map_first(s.skip(1), k, i - 1);
    }
}

proof fn lemma_blobs_map_update(s: Seq<(Vec<u8>, Vec<u8>)>, i: int, p: (Vec<u8>, Vec<u8>))
    requires
        0 <= i < s.len(),
        s[i].0@ == p.0@,
        forall|j: int| 0 <= j < i ==> s[j].0@ != p.0@,
    ensures
        blobs_map(s.update(i, p)) =~= blobs_map(s).insert(p.0@, p.1@),
    decreases i,
{
    if i == 0 {
        assert(s.update(0, p).skip(1) =~= s.skip(1));
    } else {
        assert(s.skip(1)[i - 1] == s[i]);
        assert(forall|j: int| 0 <= j < i - 1 ==> s.skip(1)[j] == s[j + 1]);
        lemma_blobs_map_update(s.skip(1), i - 1, p);
        assert(s.update(i, p).skip(1) =~= s.skip(1).update(i - 1, p));
        assert(s.update(i, p)[0] == s[0]);
    }
}

proof fn lemma_blobs_map_push(s: Seq<(Vec<u8>, Vec<u8>)>, p: (Vec<u8>, Vec<u8>))
    requires
        forall|j: int| 0 <= j < s.len() ==> s[j].0@ != p.0@,
    ensures
        blobs_map(s.push(p)) =~= blobs_map(s).insert(p.0@, p.1@),
    decreases s.len(),
{
    if s.len() == 0 {
        assert(s.push(p).skip(1) =~= Seq::<(Vec<u8>, Vec<u8>)>::empty());
        assert(s.push(p)[0] == p);
        assert(blobs_map(s.push(p).skip(1)) =~= Map::<Seq<u8>, Seq<u8>>::empty());
        assert(blobs_map(s.push(p)) =~= blobs_map(s).insert(p.0@, p.1@));
    } else {
        assert(forall|j: int| 0 <= j < s.skip(1).len() ==> s.skip(1)[j] == s[j + 1]);
        lemma_blobs_map_push(s.skip(1), p);
        assert(s.push(p).skip(1) =~= s.skip(1).push(p));
        assert(s.push(p)[0] == s[0]);
        assert(blobs_map(s.push(p)) == blobs_map(s.push(p).skip(1)).insert(s.push(p)[0].0@,
            s.push(p)[0].1@,
        ));
        assert(blobs_map(s.push(p)) == blobs_map(s.skip(1).push(p)).insert(s[0].0@, s[0].1@));
        assert(blobs_map(s.skip(1).push(p)) == blobs_map(s.skip(1)).insert(p.0@, p.1@));
        assert(blobs_map(s) == blobs_map(s.skip(1)).insert(s[0].0@, s[0].1@));
        assert(blobs_map(s.skip(1)).insert(p.0@, p.1@).insert(s[0].0@, s[0].1@) =~= blobs_map(
            s.skip(1),
        ).insert(s[0].0@, s[0].1@).insert(p.0@, p.1@));
        assert(blobs_map(s.push(p)) =~= blobs_map(s).insert(p.0@, p.1@));
    }
}

impl BlobStore {
    /// A store holding nothing.
    pub fn new() -> (r: BlobStore)
        ensures
            r@ =~= Map::<Seq<u8>, Seq<u8>>::empty(),
    {
        BlobStore { blobs: Vec::new() }
    }

    /// Write `value` under `key`, replacing what the key held before.
    /// Writing the pair a store already holds leaves its view unchanged.
    pub fn put(&mut self, key: Vec<u8>, value: Vec<u8>)
        ensures
            final(self)@ =~= old(self)@.insert(key@, value@),
    {
        let mut i: usize = 0;
        while i < self.blobs.len()
            invariant
                i <= self.blobs.len(),
                self.blobs@ == old(self).blobs@,
                forall|j: int| 0 <= j < i ==> self.blobs@[j].0@ != key@,
            decreases self.blobs.len() - i,
        {
            if crate::bytes::bytes_eq(&self.blobs[i].0, &key) {
                proof {
                    lemma_blobs_map_update(self.blobs@, i as int, (key, value));
                }
                self.blobs.set(i, (key, value));
                return ;
            }
            i += 1;
        }
        proof {
            lemma_blobs_map_push(self.blobs@, (key, value));
        }
        self.blobs.push((key, value));
    }

    /// Read back what `key` holds, if anything.
    pub fn get(&self, key: &Vec<u8>) -> (r: Option<Vec<u8>>)
        ensures
            self@.contains_key(key@) ==> (r matches Some(v) && v@ == self@[key@]),
            !self@.contains_key(key@) ==> r is None,
    {
        let mut i: usize = 0;
        while i < self.blobs.len()
            invariant
                i <= self.blobs.len(),
                forall|j: int| 0 <= j < i ==> self.blobs@[j].0@ != key@,
            decreases self.blobs.len() - i,
        {
            if crate::bytes::bytes_eq(&self.blobs[i].0, key) {
                proof {
                    lemma_blobs_map_first(self.blobs@, key@, i as int);
                }
                let mut out: Vec<u8> = Vec::new();
                crate::bytes::push_all(&mut out, &self.blobs[i].1);
                return Some(out);
            }
            i += 1;
        }
        proof {
            lemma_blobs_map_contains(self.blobs@, key@);
        }
        None
    }
}

} // verus!
