//! The wire round trip of the manifest handle, the per-commit mapping, the
//! key format and the command descriptors.

use git_delta_manifest::bytes::{bytes_eq, copy_bytes};
use git_delta_manifest::commands::{dump_config, refresh_config};
use git_delta_manifest::derive::{format_key, RootGitDeltaManifestV2Id};
use git_delta_manifest::manifest::GitDeltaManifestV2Id;
use git_delta_manifest::store::BlobStore;
use git_delta_manifest::types::DeriveError;
use git_delta_manifest::wire::{from_wire, to_wire, WIRE_TAG_GIT_DELTA_MANIFEST_V2};

fn sample_id(fill: u8) -> RootGitDeltaManifestV2Id {
    RootGitDeltaManifestV2Id(GitDeltaManifestV2Id { bytes: vec![fill; 32] })
}

#[test]
fn wire_round_trip() {
    let id = sample_id(0x5c);
    let encoded = to_wire(&id);
    assert_eq!(encoded.len(), 33);
    assert_eq!(encoded[0], WIRE_TAG_GIT_DELTA_MANIFEST_V2);
    let decoded = from_wire(&encoded).unwrap();
    assert_eq!(decoded, id);
}

#[test]
fn wire_rejects_foreign_bytes() {
    // a different variant tag
    let mut wrong_tag = vec![WIRE_TAG_GIT_DELTA_MANIFEST_V2 + 1];
    wrong_tag.extend_from_slice(&[0u8; 32]);
    assert!(matches!(from_wire(&wrong_tag), Err(DeriveError::BadWireBytes)));
    // a payload of the wrong width
    let mut short = vec![WIRE_TAG_GIT_DELTA_MANIFEST_V2];
    short.extend_from_slice(&[0u8; 31]);
    assert!(matches!(from_wire(&short), Err(DeriveError::BadWireBytes)));
    // nothing at all
    assert!(matches!(from_wire(&Vec::new()), Err(DeriveError::BadWireBytes)));
}

#[test]
fn format_key_is_prefix_plus_hex() {
    let key = format_key(&b"repo7.".to_vec(), &vec![0xab, 0x01, 0xef]);
    assert_eq!(key, b"derived_root_gdm2.repo7.ab01ef".to_vec());
}

#[test]
fn mapping_store_and_fetch() {
    let mut blob_store = BlobStore::new();
    let prefix = b"p.".to_vec();
    let commit = vec![0x11; 32];
    let other_commit = vec![0x22; 32];
    let id = sample_id(0x9d);
    id.clone().store_mapping(&mut blob_store, &prefix, &commit);
    let fetched = RootGitDeltaManifestV2Id::fetch(&blob_store, &prefix, &commit).unwrap();
    assert_eq!(fetched, Some(id.clone()));
    // an underived commit is absent, never fabricated
    let absent = RootGitDeltaManifestV2Id::fetch(&blob_store, &prefix, &other_commit).unwrap();
    assert_eq!(absent, None);
    // writing the same identifier again is a no-op
    let before = blob_store.blobs.clone();
    id.store_mapping(&mut blob_store, &prefix, &commit);
    assert_eq!(blob_store.blobs, before);
}

#[test]
fn mapping_fetch_rejects_malformed_identifier_bytes() {
    let mut blob_store = BlobStore::new();
    let key = format_key(&b"p.".to_vec(), &vec![0x33; 32]);
    blob_store.put(key, vec![1, 2, 3]);
    let r = RootGitDeltaManifestV2Id::fetch(&blob_store, &b"p.".to_vec(), &vec![0x33; 32]);
    assert!(matches!(r, Err(DeriveError::BadIdBytes)));
}

#[test]
fn byte_helpers_behave() {
    let a = vec![1u8, 2, 3];
    let b = vec![1u8, 2, 3];
    let c = vec![1u8, 2, 4];
    assert!(bytes_eq(&a, &b));
    assert!(!bytes_eq(&a, &c));
    assert!(!bytes_eq(&a, &vec![1, 2]));
    assert_eq!(copy_bytes(&a), a);
}

#[test]
fn command_descriptors() {
    assert_eq!(dump_config::aliases(), "debugdumpinternalconfig|debugdumpdynamicconfig");
    assert_eq!(dump_config::synopsis(), None);
    assert!(!dump_config::enable_cas());
    assert!(dump_config::doc().starts_with("print the internal configuration"));
    assert_eq!(refresh_config::aliases(), "debugrefreshconfig|debugdynamicconfig");
    assert_eq!(refresh_config::doc(), "refresh the internal configuration");
    assert_eq!(refresh_config::synopsis(), None);
    assert!(!refresh_config::enable_cas());
}
