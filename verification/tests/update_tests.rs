use std::io::Write;

use vault_sync::update::{
    binary_from_archive, download_url, first_binary_entry, get_target, latest_release_url,
    tag_from_member, tag_from_release, version_from_tag, TarEntry, UpdateError, CURRENT_VERSION,
    REPO,
};

fn tar_gz(files: &[(&str, &[u8])]) -> Vec<u8> {
    let enc = flate2::write::GzEncoder::new(Vec::new(), flate2::Compression::default());
    let mut builder = tar::Builder::new(enc);
    for (path, data) in files {
        let mut header = tar::Header::new_gnu();
        header.set_size(data.len() as u64);
        header.set_mode(0o755);
        header.set_cksum();
        builder.append_data(&mut header, path, *data).unwrap();
    }
    let enc = builder.into_inner().unwrap();
    enc.finish().unwrap()
}

#[test]
fn tag_version_strips_one_leading_v() {
    assert_eq!(version_from_tag("v0.6.0"), "0.6.0");
    assert_eq!(version_from_tag("0.6.0"), "0.6.0");
    assert_eq!(version_from_tag("vv1"), "v1");
    assert_eq!(version_from_tag(""), "");
}

#[test]
fn current_version() {
    assert_eq!(CURRENT_VERSION, "0.6.0");
}

#[test]
fn tag_member_mapping() {
    assert_eq!(tag_from_member(Ok(Some("v1.0.0".to_string()))).unwrap(), "v1.0.0");
    assert!(matches!(tag_from_member(Ok(None)), Err(UpdateError::MissingTagName)));
    let e = serde_json::from_str::<serde_json::Value>("{").unwrap_err();
    assert!(matches!(tag_from_member(Err(e)), Err(UpdateError::InvalidReleaseJson { .. })));
}

#[test]
fn first_binary_entry_skips_unreadable_and_other_names() {
    let entries = vec![
        TarEntry { file_name: Some("vault-sync".to_string()), data: None },
        TarEntry { file_name: None, data: Some(b"x".to_vec()) },
        TarEntry { file_name: Some("README".to_string()), data: Some(b"r".to_vec()) },
        TarEntry { file_name: Some("vault-sync".to_string()), data: Some(b"bin".to_vec()) },
    ];
    assert_eq!(first_binary_entry(&entries), Some(b"bin".to_vec()));
    assert_eq!(first_binary_entry(&entries[..3].iter().map(|e| TarEntry {
        file_name: e.file_name.clone(),
        data: e.data.clone(),
    }).collect()), None);
}

#[test]
fn targets() {
    assert_eq!(get_target("macos", "aarch64").unwrap(), "aarch64-apple-darwin");
    assert_eq!(get_target("macos", "x86_64").unwrap(), "x86_64-apple-darwin");
    assert_eq!(get_target("linux", "x86_64").unwrap(), "x86_64-unknown-linux-musl");
    match get_target("windows", "x86_64") {
        Err(e @ UpdateError::UnsupportedPlatform { .. }) => {
            assert_eq!(e.message(), "Unsupported platform: windows/x86_64")
        }
        _ => panic!("expected an unsupported platform"),
    }
}

#[test]
fn urls() {
    assert_eq!(REPO, "kyeotic/vault-sync");
    assert_eq!(latest_release_url(), "https://api.github.com/repos/kyeotic/vault-sync/releases/latest");
    assert_eq!(
        download_url("v0.6.0", "x86_64-unknown-linux-musl"),
        "https://github.com/kyeotic/vault-sync/releases/download/v0.6.0/vault-sync-x86_64-unknown-linux-musl.tar.gz"
    );
}

#[test]
fn release_tag_from_json() {
    assert_eq!(tag_from_release(br#"{"tag_name":"v0.7.0","name":"x"}"#).unwrap(), "v0.7.0");
    assert!(matches!(tag_from_release(b"<html>"), Err(UpdateError::InvalidReleaseJson { .. })));
    assert!(matches!(tag_from_release(br#"{"name":"x"}"#), Err(UpdateError::MissingTagName)));
}

#[test]
fn binary_is_found_in_archive() {
    let archive = tar_gz(&[("README.md", b"readme"), ("dist/vault-sync", b"\x7fELF binary")]);
    assert_eq!(binary_from_archive(&archive).unwrap(), b"\x7fELF binary".to_vec());
}

#[test]
fn first_binary_wins() {
    let archive = tar_gz(&[("a/vault-sync", b"one"), ("b/vault-sync", b"two")]);
    assert_eq!(binary_from_archive(&archive).unwrap(), b"one".to_vec());
}

#[test]
fn archive_without_binary() {
    let archive = tar_gz(&[("vault-sync.sh", b"#!/bin/sh")]);
    match binary_from_archive(&archive) {
        Err(e @ UpdateError::BinaryNotFound) => assert_eq!(e.message(), "Binary not found in archive"),
        _ => panic!("expected BinaryNotFound"),
    }
}

#[test]
fn garbage_archive_has_no_binary() {
    let mut gz = flate2::write::GzEncoder::new(Vec::new(), flate2::Compression::default());
    gz.write_all(b"not a tar archive at all").unwrap();
    let bytes = gz.finish().unwrap();
    assert!(binary_from_archive(&bytes).is_err());
    assert!(binary_from_archive(b"not gzip").is_err());
}
