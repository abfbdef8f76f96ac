use konpac::db::{
    parse_file_manifest, render_file_manifest, update_package, DbError, LocalPackageDb,
};
use konpac::manifest::PackageManifest;

fn manifest(name: &str, version: &str) -> PackageManifest {
    PackageManifest { name: name.to_string(), version: version.to_string(), depens: Vec::new() }
}

#[test]
fn add_then_exists_and_lookup() {
    let mut db = LocalPackageDb::new();
    assert!(!db.check_exist_pkg("foo"));
    db.add_package(&manifest("foo", "1.0"), "/var/lib/konpac/packages/foo-1.0");
    assert!(db.check_exist_pkg("foo"));
    assert!(!db.check_exist_pkg("bar"));
    let e = db.check_package_local("foo").unwrap();
    assert_eq!(e.name, "foo");
    assert_eq!(e.version, "1.0");
    assert_eq!(e.path, "/var/lib/konpac/packages/foo-1.0");
}

#[test]
fn add_same_key_overwrites_path() {
    let mut db = LocalPackageDb::new();
    db.add_package(&manifest("foo", "1.0"), "/old");
    db.add_package(&manifest("foo", "1.0"), "/new");
    assert_eq!(db.records.len(), 1);
    assert_eq!(db.check_package_local("foo").unwrap().path, "/new");
}

#[test]
fn lookup_returns_highest_version_semantically() {
    let mut db = LocalPackageDb::new();
    db.add_package(&manifest("foo", "9.0"), "/a");
    db.add_package(&manifest("foo", "10.0"), "/b");
    db.add_package(&manifest("foo", "2.5"), "/c");
    let e = db.check_package_local("foo").unwrap();
    assert_eq!(e.version, "10.0");
}

#[test]
fn del_package_removes_all_versions() {
    let mut db = LocalPackageDb::new();
    db.add_package(&manifest("foo", "1.0"), "/a");
    db.add_package(&manifest("foo", "2.0"), "/b");
    db.add_package(&manifest("bar", "1.0"), "/c");
    db.del_package("foo").unwrap();
    assert!(!db.check_exist_pkg("foo"));
    assert!(db.check_exist_pkg("bar"));
    assert_eq!(db.records.len(), 1);
}

#[test]
fn del_package_reports_not_found() {
    let mut db = LocalPackageDb::new();
    assert_eq!(db.del_package("ghost").unwrap_err(), DbError::NotFound);
}

#[test]
fn get_package_dir_returns_recorded_path() {
    let mut db = LocalPackageDb::new();
    assert!(db.get_package_dir("foo").is_none());
    db.add_package(&manifest("foo", "1.0"), "/somewhere");
    assert_eq!(db.get_package_dir("foo").unwrap(), "/somewhere");
}

#[test]
fn update_package_checks_presence() {
    let mut db = LocalPackageDb::new();
    assert_eq!(update_package(&db, "foo").unwrap_err(), DbError::NotFound);
    db.add_package(&manifest("foo", "1.0"), "/p");
    assert!(update_package(&db, "foo").is_ok());
}

#[test]
fn file_manifest_renders_one_path_per_line() {
    let paths = vec!["/usr/bin/a".to_string(), "/etc/b.conf".to_string()];
    let text = render_file_manifest(&paths);
    assert_eq!(text, "/usr/bin/a\n/etc/b.conf\n");
}

#[test]
fn file_manifest_round_trips() {
    let paths = vec!["/usr/bin/a".to_string(), "/etc/b.conf".to_string(), "/opt/x y/z".to_string()];
    let text = render_file_manifest(&paths);
    let back = parse_file_manifest(text.as_str());
    assert_eq!(back, paths);
}

#[test]
fn file_manifest_parse_skips_blank_lines_and_trims() {
    let back = parse_file_manifest("\n  /a  \n\n/b\n   \n");
    assert_eq!(back, vec!["/a".to_string(), "/b".to_string()]);
}
