use konpac::archive::{extract, hash_package, payload_file_paths, ExtractError};
use konpac::manifest::parse_manifest;

fn make_tar_gz(files: &[(&str, &str)]) -> Vec<u8> {
    let mut tarball: Vec<u8> = Vec::new();
    {
        let mut b = tar::Builder::new(&mut tarball);
        for (path, content) in files {
            let mut h = tar::Header::new_gnu();
            h.set_size(content.len() as u64);
            h.set_mode(0o644);
            h.set_entry_type(tar::EntryType::Regular);
            b.append_data(&mut h, path, content.as_bytes()).unwrap();
        }
        b.finish().unwrap();
    }
    let mut gz = flate2::write::GzEncoder::new(Vec::new(), flate2::Compression::default());
    std::io::Write::write_all(&mut gz, &tarball).unwrap();
    gz.finish().unwrap()
}

#[test]
fn hash_is_deterministic_across_calls() {
    let data = make_tar_gz(&[("package.yml", "name: a\nversion: 1\n")]);
    let h1 = hash_package(&data);
    let h2 = hash_package(&data.clone());
    assert_eq!(h1, h2);
    assert_eq!(h1.len(), 64);
}

#[test]
fn hash_differs_for_different_content() {
    let a = b"one archive".to_vec();
    let b = b"another archive".to_vec();
    assert_ne!(hash_package(&a), hash_package(&b));
}

#[test]
fn hash_matches_reference_digest() {
    let data = b"konpac test data".to_vec();
    let h = hash_package(&data);
    let d = <sha2::Sha256 as sha2::Digest>::digest(&data);
    let mut expected = String::new();
    for byte in d.iter() {
        expected.push_str(&format!("{:02x}", byte));
    }
    assert_eq!(h, expected);
}

#[test]
fn hash_of_empty_input_is_the_known_constant() {
    let h = hash_package(&Vec::new());
    assert_eq!(h, "e3b0c44298fc1c149afbf4c8996fb92427ae41e4649b934ca495991b7852b855");
}

#[test]
fn extract_then_parse_manifest_matches_metadata() {
    let data = make_tar_gz(&[
        ("package.yml", "name: hello\nversion: 2.4.1\n"),
        ("mask/usr/bin/hello", "#!/bin/sh\n"),
    ]);
    let entries = extract(&data).unwrap();
    let idx = entries
        .iter()
        .position(|e| e.is_file && e.path.trim_start_matches("./") == "package.yml")
        .unwrap();
    let text = String::from_utf8(entries[idx].data.clone()).unwrap();
    let m = parse_manifest(&text).unwrap();
    assert_eq!(m.name, "hello");
    assert_eq!(m.version, "2.4.1");
}

#[test]
fn extract_preserves_entry_contents() {
    let data = make_tar_gz(&[("mask/etc/conf", "key=value\n")]);
    let entries = extract(&data).unwrap();
    let e = entries.iter().find(|e| e.path.ends_with("mask/etc/conf")).unwrap();
    assert_eq!(e.data, b"key=value\n");
}

#[test]
fn extract_rejects_garbage() {
    let r = extract(&b"this is not a gzip stream".to_vec());
    assert_eq!(r.unwrap_err(), ExtractError::CorruptGzip);
}

#[test]
fn payload_paths_map_mask_to_root() {
    let data = make_tar_gz(&[
        ("package.yml", "name: p\nversion: 1\n"),
        ("mask/usr/bin/p", "x"),
        ("mask/etc/p.conf", "y"),
        ("scripts/install", "echo hi"),
    ]);
    let entries = extract(&data).unwrap();
    let paths = payload_file_paths(&entries);
    assert_eq!(paths, vec!["/usr/bin/p".to_string(), "/etc/p.conf".to_string()]);
}

#[test]
fn payload_paths_handle_dot_slash_prefix() {
    let data = make_tar_gz(&[("./mask/usr/share/doc", "d")]);
    let entries = extract(&data).unwrap();
    let paths = payload_file_paths(&entries);
    assert_eq!(paths, vec!["/usr/share/doc".to_string()]);
}

