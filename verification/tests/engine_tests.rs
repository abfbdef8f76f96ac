use std::collections::HashMap;

use konpac::db::LocalPackageDb;
use konpac::install::{InstallEngine, InstallError, InstallState, ResolveStep};
use konpac::manifest::ManifestError;
use konpac::query::ParseError;
use konpac::remove::{RemoveEngine, RemoveError};
use konpac::repo::DbPackageEntry;

fn make_tar_gz(files: &[(&str, &str)]) -> Vec<u8> {
    // a path ending in '/' becomes a directory entry
    let mut tarball: Vec<u8> = Vec::new();
    {
        let mut b = tar::Builder::new(&mut tarball);
        for (path, content) in files {
            let mut h = tar::Header::new_gnu();
            if path.ends_with('/') {
                h.set_size(0);
                h.set_mode(0o755);
                h.set_entry_type(tar::EntryType::Directory);
            } else {
                h.set_size(content.len() as u64);
                h.set_mode(0o644);
                h.set_entry_type(tar::EntryType::Regular);
            }
            b.append_data(&mut h, path, content.as_bytes()).unwrap();
        }
        b.finish().unwrap();
    }
    let mut gz = flate2::write::GzEncoder::new(Vec::new(), flate2::Compression::default());
    std::io::Write::write_all(&mut gz, &tarball).unwrap();
    gz.finish().unwrap()
}

fn package_archive(name: &str, version: &str, deps: &[&str], payload: &[(&str, &str)]) -> Vec<u8> {
    let mut manifest = format!("name: {}\nversion: {}\n", name, version);
    if !deps.is_empty() {
        manifest.push_str("depens:\n");
        for d in deps {
            manifest.push_str(&format!("  - \"{}\"\n", d));
        }
    }
    let mut files: Vec<(String, String)> = vec![
        ("package.yml".to_string(), manifest),
        ("mask/".to_string(), String::new()),
    ];
    for (rel, content) in payload {
        files.push((format!("mask/{}", rel), content.to_string()));
    }
    let refs: Vec<(&str, &str)> = files.iter().map(|(a, b)| (a.as_str(), b.as_str())).collect();
    make_tar_gz(&refs)
}

/// A simulated machine: the database, the target root's root_files paths,
/// the stored file manifests, the configured repositories with their
/// indexes, the downloadable archives, and an event log.
struct World {
    db: LocalPackageDb,
    root_files: Vec<String>,
    listings: HashMap<String, String>,
    repos: Vec<Vec<DbPackageEntry>>,
    store: HashMap<String, Vec<u8>>,
    log: Vec<String>,
}

impl World {
    fn new() -> World {
        World {
            db: LocalPackageDb::new(),
            root_files: Vec::new(),
            listings: HashMap::new(),
            repos: Vec::new(),
            store: HashMap::new(),
            log: Vec::new(),
        }
    }
}

fn run_install(w: &mut World, archive: &[u8]) -> Result<bool, InstallError> {
    let bytes = archive.to_vec();
    let mut e = InstallEngine::new(true);
    e.step_hash(&bytes);
    let _entries = e.step_unpack(&bytes)?;
    e.step_confirm_gate();
    if e.step_dependency_check(&w.db) {
        return Ok(true);
    }
    loop {
        match e.resolve_next(&w.db)? {
            ResolveStep::AllResolved => break,
            ResolveStep::DepAlreadyInstalled => {},
            ResolveStep::NeedLookup => {
                let q = e.pending.as_ref().unwrap().clone();
                match konpac::repo::search_repositories(&w.repos, &q) {
                    None => return Err(e.dep_not_found()),
                    Some((_, hit)) => {
                        let dep_archive = w.store.get(&hit.url).unwrap().clone();
                        run_install(w, &dep_archive)?;
                        e.dep_installed();
                    },
                }
            },
        }
    }
    let name = e.manifest.as_ref().unwrap().name.clone();
    w.log.push(format!("hook {}", name));
    e.hook_done(true);
    for p in &e.payload_paths {
        if !w.root_files.contains(p) {
            w.root_files.push(p.clone());
        }
    }
    e.materialize_done(true);
    let dir = e.install_dir();
    let listing = e.step_register(&mut w.db);
    assert_eq!(e.state, InstallState::Done);
    w.listings.insert(dir, listing);
    w.log.push(format!("registered {}", name));
    Ok(false)
}

fn run_remove(w: &mut World, name: &str) -> Result<(), RemoveError> {
    let mut e = RemoveEngine::new(name.to_string());
    let dir_exists = match w.db.get_package_dir(name) {
        Some(d) => w.listings.contains_key(&d),
        None => false,
    };
    let dir = e.step_lookup(&w.db, dir_exists)?;
    w.log.push(format!("remove hook {}", name));
    e.hook_done(true);
    let listing = w.listings.get(&dir).cloned();
    let files = e.files_to_delete(listing.as_deref());
    for f in &files {
        w.root_files.retain(|t| t != f);
    }
    e.files_deleted(true);
    e.step_delete_record(&mut w.db)?;
    w.listings.remove(&dir);
    e.dir_deleted(true);
    Ok(())
}

#[test]
fn install_single_package() {
    let mut w = World::new();
    let a = package_archive("foo", "1.0", &[], &[("usr/bin/foo", "bin")]);
    let already = run_install(&mut w, &a).unwrap();
    assert!(!already);
    assert!(w.db.check_exist_pkg("foo"));
    assert_eq!(w.root_files, vec!["/usr/bin/foo".to_string()]);
    let dir = w.db.get_package_dir("foo").unwrap();
    assert_eq!(dir, "/var/lib/konpac/packages/foo-1.0");
    assert_eq!(w.listings.get(&dir).unwrap(), "/usr/bin/foo\n");
}

#[test]
fn installing_twice_is_idempotent() {
    let mut w = World::new();
    let a = package_archive("foo", "1.0", &[], &[("usr/bin/foo", "bin")]);
    run_install(&mut w, &a).unwrap();
    let tracked_before = w.root_files.clone();
    let records_before = w.db.records.len();
    let log_before = w.log.len();
    let already = run_install(&mut w, &a).unwrap();
    assert!(already);
    assert_eq!(w.root_files, tracked_before);
    assert_eq!(w.db.records.len(), records_before);
    // no further hook or registration happened
    assert_eq!(w.log.len(), log_before);
}

#[test]
fn dependency_chain_installs_depth_first() {
    let mut w = World::new();
    let a = package_archive("a", "1.0", &["b>=1.0"], &[("usr/bin/a", "a")]);
    let b = package_archive("b", "1.0", &["c>=1.0"], &[("usr/bin/b", "b")]);
    let c = package_archive("c", "1.0", &[], &[("usr/bin/c", "c")]);
    w.store.insert("b.kpkg".to_string(), b);
    w.store.insert("c.kpkg".to_string(), c);
    w.repos.push(vec![
        DbPackageEntry { name: "b".into(), version: "1.0".into(), url: "b.kpkg".into() },
        DbPackageEntry { name: "c".into(), version: "1.0".into(), url: "c.kpkg".into() },
    ]);
    run_install(&mut w, &a).unwrap();
    let pos = |s: &str| w.log.iter().position(|l| l == s).unwrap();
    // c is fully installed before b, and b before a's hook runs
    assert!(pos("registered c") < pos("registered b"));
    assert!(pos("registered b") < pos("hook a"));
    assert!(pos("hook c") < pos("registered c"));
    assert!(w.db.check_exist_pkg("a") && w.db.check_exist_pkg("b") && w.db.check_exist_pkg("c"));
}

#[test]
fn first_repository_with_a_row_wins() {
    let mut w = World::new();
    let a = package_archive("a", "1.0", &["dep>=1.0"], &[]);
    let dep_first = package_archive("dep", "1.0", &[], &[("etc/first", "1")]);
    let dep_second = package_archive("dep", "2.0", &[], &[("etc/second", "2")]);
    w.store.insert("first.kpkg".to_string(), dep_first);
    w.store.insert("second.kpkg".to_string(), dep_second);
    w.repos.push(vec![DbPackageEntry {
        name: "dep".into(),
        version: "1.0".into(),
        url: "first.kpkg".into(),
    }]);
    w.repos.push(vec![DbPackageEntry {
        name: "dep".into(),
        version: "2.0".into(),
        url: "second.kpkg".into(),
    }]);
    run_install(&mut w, &a).unwrap();
    // the first repository satisfied the constraint, so its archive won
    assert!(w.root_files.contains(&"/etc/first".to_string()));
    assert!(!w.root_files.contains(&"/etc/second".to_string()));
}

#[test]
fn already_installed_dependency_is_skipped() {
    let mut w = World::new();
    let b = package_archive("b", "1.0", &[], &[]);
    run_install(&mut w, &b).unwrap();
    let a = package_archive("a", "1.0", &["b>=1.0"], &[]);
    run_install(&mut w, &a).unwrap();
    let registered_b = w.log.iter().filter(|l| l.as_str() == "registered b").count();
    assert_eq!(registered_b, 1);
}

#[test]
fn missing_dependency_fails_the_transaction() {
    let mut w = World::new();
    let a = package_archive("a", "1.0", &["ghost>=1.0"], &[]);
    assert_eq!(run_install(&mut w, &a).unwrap_err(), InstallError::DependencyNotFound);
    assert!(!w.db.check_exist_pkg("a"));
}

#[test]
fn unparsable_dependency_fails_the_transaction() {
    let mut w = World::new();
    let a = package_archive("a", "1.0", &["nonsense"], &[]);
    assert_eq!(
        run_install(&mut w, &a).unwrap_err(),
        InstallError::DependencyParseFailed(ParseError::InvalidFormat),
    );
}

#[test]
fn corrupt_archive_fails_before_any_stage() {
    let mut w = World::new();
    let r = run_install(&mut w, b"not an archive at all");
    assert!(matches!(r.unwrap_err(), InstallError::ExtractFailed(_)));
}

#[test]
fn archive_without_metadata_fails() {
    let mut w = World::new();
    let a = make_tar_gz(&[("mask/usr/bin/x", "x")]);
    assert_eq!(run_install(&mut w, &a).unwrap_err(), InstallError::ManifestMissing);
}

#[test]
fn metadata_without_version_fails() {
    let mut w = World::new();
    let a = make_tar_gz(&[("package.yml", "name: x\n")]);
    assert_eq!(
        run_install(&mut w, &a).unwrap_err(),
        InstallError::ManifestFailed(ManifestError::MissingField),
    );
}

#[test]
fn confirmation_can_decline() {
    let bytes = package_archive("foo", "1.0", &[], &[]);
    let mut e = InstallEngine::new(false);
    e.step_hash(&bytes);
    e.step_unpack(&bytes).unwrap();
    e.step_confirm_gate();
    assert_eq!(e.state, InstallState::AwaitingConfirmation);
    e.confirm(false);
    assert_eq!(e.state, InstallState::Failed);
    assert_eq!(e.error, Some(InstallError::Declined));
}

#[test]
fn remove_deletes_exactly_the_tracked_files() {
    let mut w = World::new();
    w.root_files.push("/keep/me".to_string());
    let a = package_archive("foo", "1.0", &[], &[("usr/bin/foo", "b"), ("etc/foo.conf", "c")]);
    run_install(&mut w, &a).unwrap();
    assert_eq!(w.root_files.len(), 3);
    run_remove(&mut w, "foo").unwrap();
    // only the pre-existing path remains: install then remove returned
    // the root_files-path set to its pre-install state
    assert_eq!(w.root_files, vec!["/keep/me".to_string()]);
    assert!(!w.db.check_exist_pkg("foo"));
    assert_eq!(w.db.records.len(), 0);
}

#[test]
fn remove_unknown_package_reports_not_installed() {
    let mut w = World::new();
    assert_eq!(run_remove(&mut w, "ghost").unwrap_err(), RemoveError::PackageNotInstalled);
}

#[test]
fn remove_with_missing_directory_reports_dir_missing() {
    let mut w = World::new();
    let a = package_archive("foo", "1.0", &[], &[("usr/bin/foo", "b")]);
    run_install(&mut w, &a).unwrap();
    // the directory disappears behind the database's back
    let dir = w.db.get_package_dir("foo").unwrap();
    w.listings.remove(&dir);
    assert_eq!(run_remove(&mut w, "foo").unwrap_err(), RemoveError::PackageDirMissing);
    // the record is still there: nothing was deleted
    assert!(w.db.check_exist_pkg("foo"));
}

#[test]
fn valid_gzip_of_garbage_tar_is_corrupt_archive() {
    let mut gz = flate2::write::GzEncoder::new(Vec::new(), flate2::Compression::default());
    std::io::Write::write_all(&mut gz, &[0xaa_u8; 512]).unwrap();
    let data = gz.finish().unwrap();
    let r = konpac::archive::extract(&data);
    assert_eq!(r.unwrap_err(), konpac::archive::ExtractError::CorruptArchive);
}

#[test]
fn non_text_metadata_fails() {
    let mut tarball: Vec<u8> = Vec::new();
    {
        let mut b = tar::Builder::new(&mut tarball);
        let bad = [0xff_u8, 0xfe, 0x01];
        let mut h = tar::Header::new_gnu();
        h.set_size(bad.len() as u64);
        h.set_mode(0o644);
        h.set_entry_type(tar::EntryType::Regular);
        b.append_data(&mut h, "package.yml", &bad[..]).unwrap();
        b.finish().unwrap();
    }
    let mut gz = flate2::write::GzEncoder::new(Vec::new(), flate2::Compression::default());
    std::io::Write::write_all(&mut gz, &tarball).unwrap();
    let archive = gz.finish().unwrap();
    let mut w = World::new();
    assert_eq!(run_install(&mut w, &archive).unwrap_err(), InstallError::ManifestNotText);
}

#[test]
fn materialize_failure_aborts_before_registration() {
    let bytes = package_archive("foo", "1.0", &[], &[("usr/bin/foo", "b")]);
    let db = LocalPackageDb::new();
    let mut e = InstallEngine::new(true);
    e.step_hash(&bytes);
    e.step_unpack(&bytes).unwrap();
    e.step_confirm_gate();
    assert!(!e.step_dependency_check(&db));
    assert!(matches!(e.resolve_next(&db).unwrap(), ResolveStep::AllResolved));
    e.hook_done(true);
    e.materialize_done(false);
    assert_eq!(e.state, InstallState::Failed);
    assert_eq!(e.error, Some(InstallError::MaterializeFailed));
}

#[test]
fn remove_failure_paths_report_their_stage() {
    // a failed tracked-file deletion
    let mut w = World::new();
    let a = package_archive("foo", "1.0", &[], &[("usr/bin/foo", "b")]);
    run_install(&mut w, &a).unwrap();
    let mut e = RemoveEngine::new("foo".to_string());
    e.step_lookup(&w.db, true).unwrap();
    e.hook_done(true);
    e.files_deleted(false);
    assert_eq!(e.state, konpac::remove::RemoveState::Failed);
    assert_eq!(e.error, Some(RemoveError::FileDeleteFailed));

    // a record that vanished between lookup and deletion
    let mut e = RemoveEngine::new("foo".to_string());
    e.step_lookup(&w.db, true).unwrap();
    e.hook_done(true);
    e.files_deleted(true);
    let mut empty = LocalPackageDb::new();
    assert_eq!(e.step_delete_record(&mut empty).unwrap_err(), RemoveError::RecordMissing);

    // a directory that would not go away
    let mut e = RemoveEngine::new("foo".to_string());
    e.step_lookup(&w.db, true).unwrap();
    e.hook_done(true);
    e.files_deleted(true);
    e.step_delete_record(&mut w.db).unwrap();
    e.dir_deleted(false);
    assert_eq!(e.error, Some(RemoveError::DirDeleteFailed));
}

#[test]
fn confirmation_can_accept() {
    let bytes = package_archive("foo", "1.0", &[], &[]);
    let mut e = InstallEngine::new(false);
    e.step_hash(&bytes);
    e.step_unpack(&bytes).unwrap();
    e.step_confirm_gate();
    assert_eq!(e.state, InstallState::AwaitingConfirmation);
    e.confirm(true);
    assert_eq!(e.state, InstallState::DependencyCheck);
}

#[test]
fn archive_without_payload_subtree_fails() {
    // a metadata file alone: nothing would be installed
    let mut w = World::new();
    let a = make_tar_gz(&[("package.yml", "name: bare\nversion: 1\n")]);
    assert_eq!(run_install(&mut w, &a).unwrap_err(), InstallError::PayloadMissing);
    assert!(!w.db.check_exist_pkg("bare"));
}

#[test]
fn archive_with_empty_payload_subtree_installs() {
    // an empty mask directory is a package that owns no files
    let mut w = World::new();
    let a = package_archive("empty", "1.0", &[], &[]);
    run_install(&mut w, &a).unwrap();
    assert!(w.db.check_exist_pkg("empty"));
    assert!(w.root_files.is_empty());
}
