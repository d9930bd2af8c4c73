//! The delta codec and the instruction chunking, exercised on real bytes.

use git_delta_manifest::delta::{apply_delta, compute_raw_delta};
use git_delta_manifest::entries::{make_instructions, DeltaChunk};
use git_delta_manifest::types::GitDeltaManifestV2Config;

/// Deterministic, hard-to-compress bytes.
fn noise(len: usize, mut seed: u64) -> Vec<u8> {
    let mut out = Vec::with_capacity(len);
    for _ in 0..len {
        seed = seed.wrapping_mul(6364136223846793005).wrapping_add(1442695040888963407);
        out.push((seed >> 33) as u8);
    }
    out
}

fn zlib_len(b: &[u8]) -> usize {
    let mut e = flate2::write::ZlibEncoder::new(Vec::new(), flate2::Compression::default());
    std::io::Write::write_all(&mut e, b).unwrap();
    e.finish().unwrap().len()
}

#[test]
fn delta_round_trips_and_stays_bounded() {
    let old = noise(1000, 7);
    let mut new = old.clone();
    new[500] ^= 0xff;
    let d = compute_raw_delta(&old, &new).expect("a one-byte change must delta");
    assert!(d.len() <= zlib_len(&new));
    assert_eq!(apply_delta(&old, &d), Some(new));
}

#[test]
fn delta_none_when_encoding_exceeds_compressed_size() {
    // wholly different incompressible contents: the middle is all of `new`,
    // so the encoding is larger than the compressed new bytes
    let old = noise(64, 1);
    let new = noise(64, 2);
    assert!(compute_raw_delta(&old, &new).is_none());
}

#[test]
fn delta_none_on_empty_inputs() {
    let data = noise(100, 3);
    assert!(compute_raw_delta(&Vec::new(), &data).is_none());
    assert!(compute_raw_delta(&data, &Vec::new()).is_none());
}

#[test]
fn delta_exact_encoding() {
    // shared prefix of 3, shared suffix of 2 (after the prefix), middle "XY"
    let old = vec![1u8, 2, 3, 7, 8, 9, 10];
    let new = vec![1u8, 2, 3, 42, 43, 9, 10];
    // the encoding of this delta: prefix 3, middle 2, suffix 2, then 42 43
    let mut expected = Vec::new();
    expected.extend_from_slice(&3u64.to_le_bytes());
    expected.extend_from_slice(&2u64.to_le_bytes());
    expected.extend_from_slice(&2u64.to_le_bytes());
    expected.extend_from_slice(&[42, 43]);
    if let Some(d) = compute_raw_delta(&old, &new) {
        assert_eq!(d, expected);
        assert_eq!(apply_delta(&old, &d), Some(new.clone()));
    }
    // whether the delta exists depends on the compressed size of `new`;
    // applying the expected encoding must reconstruct `new` either way
    assert_eq!(apply_delta(&old, &expected), Some(new));
}

#[test]
fn apply_delta_rejects_malformed_bytes() {
    let old = vec![1u8, 2, 3];
    assert_eq!(apply_delta(&old, &vec![0u8; 10]), None);
    // claims a 5-byte prefix out of a 3-byte base
    let mut bad = Vec::new();
    bad.extend_from_slice(&5u64.to_le_bytes());
    bad.extend_from_slice(&0u64.to_le_bytes());
    bad.extend_from_slice(&0u64.to_le_bytes());
    assert_eq!(apply_delta(&old, &bad), None);
    // middle length that disagrees with the actual byte count
    let mut bad2 = Vec::new();
    bad2.extend_from_slice(&0u64.to_le_bytes());
    bad2.extend_from_slice(&9u64.to_le_bytes());
    bad2.extend_from_slice(&0u64.to_le_bytes());
    bad2.push(1);
    assert_eq!(apply_delta(&old, &bad2), None);
}

#[test]
fn chunking_cuts_preserves_and_stores() {
    let cfg = GitDeltaManifestV2Config {
        delta_chunk_size: 10,
        max_inlined_object_size: 100,
        max_inlined_delta_size: 0,
    };
    let d = noise(25, 11);
    let mut writes = Vec::new();
    let ins = make_instructions(&cfg, &d, &mut writes);
    assert_eq!(ins.chunk_size, 10);
    assert_eq!(ins.chunks.len(), 3);
    // every chunk is over the zero inline threshold, so all are stored
    assert_eq!(writes.len(), 3);
    let mut rebuilt = Vec::new();
    for (i, chunk) in ins.chunks.iter().enumerate() {
        match chunk {
            DeltaChunk::Stored(oid) => {
                let (key, bytes) = &writes[i];
                assert_eq!(&oid.bytes, key);
                let digest =
                    <blake2::Blake2s256 as blake2::Digest>::digest(bytes.as_slice()).to_vec();
                assert_eq!(key, &digest);
                rebuilt.extend_from_slice(bytes);
            },
            DeltaChunk::Inlined(_) => panic!("no chunk fits a zero threshold"),
        }
    }
    assert_eq!(rebuilt, d);
}

#[test]
fn chunking_inlines_small_chunks() {
    let cfg = GitDeltaManifestV2Config {
        delta_chunk_size: 10,
        max_inlined_object_size: 100,
        max_inlined_delta_size: 9,
    };
    // two full chunks of 10 (stored) and a tail of 5 (inlined)
    let d = noise(25, 13);
    let mut writes = Vec::new();
    let ins = make_instructions(&cfg, &d, &mut writes);
    assert_eq!(ins.chunks.len(), 3);
    assert_eq!(writes.len(), 2);
    assert!(matches!(ins.chunks[0], DeltaChunk::Stored(_)));
    assert!(matches!(ins.chunks[1], DeltaChunk::Stored(_)));
    match &ins.chunks[2] {
        DeltaChunk::Inlined(b) => assert_eq!(b.as_slice(), &d[20..]),
        DeltaChunk::Stored(_) => panic!("the tail fits the threshold"),
    }
}

#[test]
fn chunking_zero_chunk_size_keeps_one_piece() {
    let cfg = GitDeltaManifestV2Config {
        delta_chunk_size: 0,
        max_inlined_object_size: 100,
        max_inlined_delta_size: 1000,
    };
    let d = noise(25, 17);
    let mut writes = Vec::new();
    let ins = make_instructions(&cfg, &d, &mut writes);
    assert_eq!(ins.chunks.len(), 1);
    assert!(writes.is_empty());
    match &ins.chunks[0] {
        DeltaChunk::Inlined(b) => assert_eq!(b, &d),
        DeltaChunk::Stored(_) => panic!("the single piece fits the threshold"),
    }
}

#[test]
fn delta_bound_is_inclusive() {
    // construct a pair whose encoded delta is exactly the compressed size of
    // the new bytes: accepted; one byte more: rejected
    let new = noise(1000, 19);
    let bound = zlib_len(&new);
    // incompressible noise compresses to a little over its own length
    assert!(24 < bound && bound - 24 < new.len());
    let mid = bound - 24;
    // old differs at byte 0 (no shared prefix) and at byte mid - 1 (the
    // shared suffix is exactly new.len() - mid long): encoded == bound
    let mut old_at = new.clone();
    old_at[0] ^= 1;
    old_at[mid - 1] ^= 1;
    let d = compute_raw_delta(&old_at, &new).expect("a delta exactly at the bound is kept");
    assert_eq!(d.len(), bound);
    assert_eq!(apply_delta(&old_at, &d), Some(new.clone()));
    // old differs at byte 0 and at byte mid: encoded == bound + 1
    let mut old_over = new.clone();
    old_over[0] ^= 1;
    old_over[mid] ^= 1;
    assert!(compute_raw_delta(&old_over, &new).is_none());
}
