use konpac::repo::{
    classify_url, file_url_path, find_package_by_version, get_repos, search_pkg,
    search_pkg_with_ver, DbPackageEntry, RepoQueryError, UrlScheme,
};

fn row(name: &str, version: &str, url: &str) -> DbPackageEntry {
    DbPackageEntry { name: name.to_string(), version: version.to_string(), url: url.to_string() }
}

#[test]
fn get_repos_reads_sections_and_substitutes() {
    let config = "[main]\nurl = https://example.org/$repo/$arch\n[extra]\nurl=file:///srv/$repo\n";
    let repos = get_repos(config, "x86_64");
    assert_eq!(repos.len(), 2);
    assert_eq!(repos[0].name, "main");
    assert_eq!(repos[0].url, "https://example.org/main/x86_64");
    assert_eq!(repos[1].name, "extra");
    assert_eq!(repos[1].url, "file:///srv/extra");
}

#[test]
fn get_repos_ignores_comments_and_unknown_keys() {
    let config = "# a comment\n[one]\n; another\nmirror = x\nurl = u\n";
    let repos = get_repos(config, "arm");
    assert_eq!(repos.len(), 1);
    assert_eq!(repos[0].url, "u");
}

#[test]
fn get_repos_empty_config_yields_none() {
    assert_eq!(get_repos("", "x86_64").len(), 0);
}

#[test]
fn search_pkg_returns_latest_version() {
    let rows = vec![row("pkg", "1.5.0", "a"), row("pkg", "2.3.1", "b"), row("pkg", "2.0.0", "c")];
    let e = search_pkg("pkg", &rows).unwrap();
    assert_eq!(e.version, "2.3.1");
    assert_eq!(e.url, "b");
}

#[test]
fn search_pkg_none_when_absent() {
    let rows = vec![row("other", "1.0", "a")];
    assert!(search_pkg("pkg", &rows).is_none());
}

#[test]
fn find_matching_picks_highest_survivor() {
    // rows [1.5.0, 2.0.0, 2.3.1] with >= 2.0.0 keep 2.0.0 and 2.3.1
    let rows = vec![row("pkg", "1.5.0", "a"), row("pkg", "2.0.0", "b"), row("pkg", "2.3.1", "c")];
    let e = find_package_by_version(&rows, "pkg", "2.0.0", ">=").unwrap().unwrap();
    assert_eq!(e.version, "2.3.1");
}

#[test]
fn find_matching_none_when_no_row_satisfies() {
    let rows = vec![row("pkg", "1.0.0", "a"), row("pkg", "1.9.9", "b")];
    assert!(find_package_by_version(&rows, "pkg", "2.0.0", ">=").unwrap().is_none());
}

#[test]
fn find_matching_exact_operator() {
    let rows = vec![row("pkg", "1.0", "a"), row("pkg", "2.0", "b")];
    let e = find_package_by_version(&rows, "pkg", "1.0", "=").unwrap().unwrap();
    assert_eq!(e.url, "a");
    let e = find_package_by_version(&rows, "pkg", "2.0", "<").unwrap().unwrap();
    assert_eq!(e.version, "1.0");
}

#[test]
fn find_matching_rejects_bad_operator() {
    let rows = vec![row("pkg", "1.0", "a")];
    assert_eq!(
        find_package_by_version(&rows, "pkg", "1.0", "==").unwrap_err(),
        RepoQueryError::InvalidOperator,
    );
}

#[test]
fn find_matching_rejects_bad_version() {
    let rows = vec![row("pkg", "1.0", "a")];
    assert_eq!(
        find_package_by_version(&rows, "pkg", "latest", ">=").unwrap_err(),
        RepoQueryError::InvalidVersion,
    );
}

#[test]
fn search_with_min_version() {
    let rows = vec![row("pkg", "1.0", "a"), row("pkg", "1.5", "b"), row("pkg", "0.9", "c")];
    let e = search_pkg_with_ver("pkg", &rows, "1.0").unwrap().unwrap();
    assert_eq!(e.version, "1.5");
    assert!(search_pkg_with_ver("pkg", &rows, "2.0").unwrap().is_none());
    assert_eq!(
        search_pkg_with_ver("pkg", &rows, "x").unwrap_err(),
        RepoQueryError::InvalidVersion,
    );
}

#[test]
fn rows_with_invalid_versions_never_satisfy() {
    let rows = vec![row("pkg", "broken", "a"), row("pkg", "1.0", "b")];
    let e = find_package_by_version(&rows, "pkg", "0.1", ">=").unwrap().unwrap();
    assert_eq!(e.version, "1.0");
}

#[test]
fn repositories_are_tried_in_order() {
    let q = konpac::query::PackageQuery::parse("pkg>=1.0").unwrap();
    let indexes = vec![
        vec![row("other", "9.9", "x")],
        vec![row("pkg", "1.0", "low")],
        vec![row("pkg", "5.0", "high")],
    ];
    // the first repository with any satisfying row wins, even though a
    // later one offers a higher version
    let (k, e) = konpac::repo::search_repositories(&indexes, &q).unwrap();
    assert_eq!(k, 1);
    assert_eq!(e.url, "low");
}

#[test]
fn search_repositories_none_when_no_repo_matches() {
    let q = konpac::query::PackageQuery::parse("pkg>=2.0").unwrap();
    let indexes = vec![vec![row("pkg", "1.0", "a")], vec![]];
    assert!(konpac::repo::search_repositories(&indexes, &q).is_none());
}

#[test]
fn url_schemes_are_classified() {
    assert_eq!(classify_url("http://example.org/x"), UrlScheme::Http);
    assert_eq!(classify_url("https://example.org/x"), UrlScheme::Http);
    assert_eq!(classify_url("file:///srv/repo/packages.db"), UrlScheme::File);
    assert_eq!(classify_url("ftp://example.org/x"), UrlScheme::Unsupported);
    assert_eq!(classify_url(""), UrlScheme::Unsupported);
    assert_eq!(file_url_path("file:///srv/repo/a.kpkg"), "/srv/repo/a.kpkg");
}
