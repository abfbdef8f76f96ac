//! Repositories: the configuration that names them and the queries
//! against a repository's package index.
//!
//! The configuration is INI-like: one `[section]` per repository, whose
//! `url` key gives the index location with `$repo` and `$arch`
//! placeholders resolved against the section name and the host
//! architecture. An index is a table of (name, version, url) rows;
//! queries return the highest-versioned row that matches.
use vstd::prelude::*;
use vstd::string::*;
use crate::chars::{
    find_char, lemma_find_char_at, replace_all, spec_replace, spec_trim, str_eq, trim,
};
use crate::db::spec_parse_lines;
use crate::query::{constraint_satisfied, valid_op, PackageQuery};
use crate::version::{
    lemma_vals_cmp_refl, lemma_version_gt_trans, version_gt, version_gt_exec, version_vals,
};

verus! {

/// Why an index query was refused.
#[derive(Debug, Clone, Copy, PartialEq, Eq, Structural)]
pub enum RepoQueryError {
    /// The comparison operator is not one of `=`, `<`, `>`, `<=`, `>=`.
    InvalidOperator,
    /// The version to compare against is not a valid version string.
    InvalidVersion,
}

/// One configured repository: its name and its resolved URL.
#[derive(Debug)]
pub struct Repository {
    pub name: String,
    pub url: String,
}

impl View for Repository {
    type V = (Seq<char>, Seq<char>);

    open spec fn view(&self) -> Self::V {
        (self.name@, self.url@)
    }
}

/// One row of a repository's package index.
#[derive(Debug)]
pub struct DbPackageEntry {
    pub name: String,
    pub version: String,
    pub url: String,
}

impl View for DbPackageEntry {
    type V = (Seq<char>, Seq<char>, Seq<char>);

    open spec fn view(&self) -> Self::V {
        (self.name@, self.version@, self.url@)
    }
}

impl DbPackageEntry {
    /// A field-for-field copy of this row.
    pub fn duplicate(&self) -> (r: DbPackageEntry)
        ensures
            r@ == self@,
    {
        DbPackageEntry {
            name: self.name.clone(),
            version: self.version.clone(),
            url: self.url.clone(),
        }
    }
}

/// The views of a repository sequence, in order.
pub open spec fn repos_view(rs: Seq<Repository>) -> Seq<(Seq<char>, Seq<char>)> {
    rs.map_values(|r: Repository| r@)
}

/// A url value with its placeholders resolved.
pub open spec fn resolve_url(raw: Seq<char>, repo: Seq<char>, arch: Seq<char>) -> Seq<char> {
    spec_replace(spec_replace(raw, "$repo"@, repo), "$arch"@, arch)
}

/// How one trimmed, non-empty configuration line changes the repository
/// list.
pub open spec fn repos_step(
    rs: Seq<(Seq<char>, Seq<char>)>,
    t: Seq<char>,
    arch: Seq<char>,
) -> Seq<(Seq<char>, Seq<char>)> {
    if t[0] == '[' {
        if t.len() >= 2 && t[t.len() - 1] == ']' {
            rs.push((spec_trim(t.subrange(1, t.len() - 1)), Seq::empty()))
        } else {
            rs
        }
    } else if t[0] == '#' || t[0] == ';' {
        rs
    } else if find_char(t, '=') < t.len() && rs.len() > 0 {
        let key = spec_trim(t.subrange(0, find_char(t, '=') as int));
        let val = spec_trim(t.subrange(find_char(t, '=') as int + 1, t.len() as int));
        if key == "url"@ {
            let cur = rs[rs.len() - 1];
            rs.update(rs.len() - 1, (cur.0, resolve_url(val, cur.0, arch)))
        } else {
            rs
        }
    } else {
        rs
    }
}

/// Reads the given configuration lines in order.
pub open spec fn repos_fold(
    lines: Seq<Seq<char>>,
    rs: Seq<(Seq<char>, Seq<char>)>,
    arch: Seq<char>,
) -> Seq<(Seq<char>, Seq<char>)>
    decreases lines.len(),
{
    if lines.len() == 0 {
        rs
    } else {
        repos_fold(lines.drop_first(), repos_step(rs, lines[0], arch), arch)
    }
}

/// The repository list a configuration text denotes.
pub open spec fn spec_repos(config: Seq<char>, arch: Seq<char>) -> Seq<(Seq<char>, Seq<char>)> {
    repos_fold(spec_parse_lines(config), Seq::empty(), arch)
}

proof fn lemma_repos_fold_append(
    lines: Seq<Seq<char>>,
    rs: Seq<(Seq<char>, Seq<char>)>,
    t: Seq<char>,
    arch: Seq<char>,
)
    ensures
        repos_fold(lines.push(t), rs, arch) == repos_step(repos_fold(lines, rs, arch), t, arch),
    decreases lines.len(),
{
    if lines.len() == 0 {
        assert(lines.push(t)[0] == t);
        assert(lines.push(t).drop_first() =~= Seq::<Seq<char>>::empty());
        assert(repos_fold(Seq::<Seq<char>>::empty(), repos_step(rs, t, arch), arch) == repos_step(
            rs,
            t,
            arch,
        ));
    } else {
        assert(lines.push(t)[0] == lines[0]);
        assert(lines.push(t).drop_first() =~= lines.drop_first().push(t));
        lemma_repos_fold_append(lines.drop_first(), repos_step(rs, lines[0], arch), t, arch);
    }
}

/// Reads a repository configuration: one repository per `[section]`,
/// with the section's `url` key resolved against the section name and
/// `arch`.
pub fn get_repos(config: &str, arch: &str) -> (r: Vec<Repository>)
    ensures
        repos_view(r@) == spec_repos(config@, arch@),
{
    let lines = crate::db::parse_file_manifest(config);
    let ghost all = spec_parse_lines(config@);
    let n = lines.len();
    let mut out: Vec<Repository> = Vec::new();
    let mut i: usize = 0;
    proof {
        assert(all.take(0) =~= Seq::<Seq<char>>::empty());
        assert(repos_view(out@) =~= Seq::<(Seq<char>, Seq<char>)>::empty());
    }
    while i < n
        invariant
            i <= n,
            n == lines@.len(),
            crate::chars::strings_view(lines@) == all,
            all == spec_parse_lines(config@),
            repos_view(out@) == repos_fold(all.take(i as int), Seq::empty(), arch@),
        decreases n - i,
    {
        let ghost rs = repos_view(out@);
        let ghost t = all[i as int];
        proof {
            assert(all.take(i + 1) =~= all.take(i as int).push(t));
            lemma_repos_fold_append(all.take(i as int), Seq::empty(), t, arch@);
            assert(t == lines@[i as int]@);
            crate::manifest::lemma_parsed_lines_nonempty(config@);
        }
        let line = lines[i].as_str();
        let ln = line.unicode_len();
        let c0 = line.get_char(0);
        if c0 == '[' {
            if ln >= 2 && line.get_char(ln - 1) == ']' {
                let name = trim(line.substring_char(1, ln - 1));
                let rep = Repository { name, url: String::new() };
                out.push(rep);
                proof {
                    assert(repos_view(out@) =~= rs.push(
                        (spec_trim(t.subrange(1, t.len() - 1)), Seq::<char>::empty()),
                    ));
                }
            }
        } else if c0 == '#' || c0 == ';' {
            // comment
        } else {
            let mut e: usize = 0;
            while e < ln && line.get_char(e) != '='
                invariant
                    e <= ln,
                    ln == line@.len(),
                    forall|k: int| 0 <= k < e ==> line@[k] != '=',
                decreases ln - e,
            {
                e = e + 1;
            }
            proof {
                lemma_find_char_at(t, '=', e as int);
            }
            if e < ln && out.len() > 0 {
                let key = trim(line.substring_char(0, e));
                if str_eq(key.as_str(), "url") {
                    let val = trim(line.substring_char(e + 1, ln));
                    let last = out.len() - 1;
                    proof {
                        reveal_strlit("$repo");
                        reveal_strlit("$arch");
                    }
                    let resolved = replace_all(
                        replace_all(val.as_str(), "$repo", out[last].name.as_str()).as_str(),
                        "$arch",
                        arch,
                    );
                    let name2 = out[last].name.clone();
                    out.set(last, Repository { name: name2, url: resolved });
                    proof {
                        assert(repos_view(out@) =~= rs.update(
                            rs.len() - 1,
                            (rs[rs.len() - 1].0, resolve_url(
                                spec_trim(t.subrange(e + 1, t.len() as int)),
                                rs[rs.len() - 1].0,
                                arch@,
                            )),
                        ));
                    }
                }
            }
        }
        i = i + 1;
    }
    proof {
        assert(all.take(n as int) =~= all);
    }
    out
}

/// The highest-versioned row named `name`, if any: no other row of that
/// name ranks above the returned one.
fn find_package(rows: &Vec<DbPackageEntry>, package_name: &str) -> (r: Option<DbPackageEntry>)
    ensures
        r is Some <==> exists|i: int|
            0 <= i < rows@.len() && (#[trigger] rows@[i]@).0 == package_name@,
        r matches Some(e) ==> e.name@ == package_name@ && (exists|i: int|
            0 <= i < rows@.len() && #[trigger] rows@[i]@ == e@) && (forall|j: int|
            0 <= j < rows@.len() && (#[trigger] rows@[j]@).0 == package_name@ ==> !version_gt(
                rows@[j]@.1,
                e.version@,
            )),
{
    let n = rows.len();
    let mut best: Option<usize> = None;
    let mut i: usize = 0;
    while i < n
        invariant
            i <= n,
            n == rows@.len(),
            best is None ==> forall|j: int| 0 <= j < i ==> (#[trigger] rows@[j]@).0
                != package_name@,
            best matches Some(b) ==> b < i && b < n && rows@[b as int]@.0 == package_name@ && (
            forall|j: int|
                0 <= j < i && (#[trigger] rows@[j]@).0 == package_name@ ==> !version_gt(
                    rows@[j]@.1,
                    rows@[b as int]@.1,
                )),
        decreases n - i,
    {
        if str_eq(rows[i].name.as_str(), package_name) {
            match best {
                None => {
                    proof {
                        lemma_vals_cmp_refl(version_vals(rows@[i as int]@.1));
                    }
                    best = Some(i);
                },
                Some(b) => {
                    if version_gt_exec(rows[i].version.as_str(), rows[b].version.as_str()) {
                        proof {
                            let bv = rows@[b as int]@.1;
                            let iv = rows@[i as int]@.1;
                            lemma_vals_cmp_refl(version_vals(iv));
                            assert forall|j: int|
                                0 <= j < i + 1 && (#[trigger] rows@[j]@).0 == package_name@
                                    implies !version_gt(rows@[j]@.1, iv) by {
                                if j < i && version_gt(rows@[j]@.1, iv) {
                                    lemma_version_gt_trans(rows@[j]@.1, iv, bv);
                                }
                            }
                        }
                        best = Some(i);
                    }
                },
            }
        }
        i = i + 1;
    }
    match best {
        None => None,
        Some(b) => Some(rows[b].duplicate()),
    }
}

/// Searches a fetched repository index for the latest version of
/// `pkg_name`; `None` when the repository has no row for it.
pub fn search_pkg(pkg_name: &str, rows: &Vec<DbPackageEntry>) -> (r: Option<DbPackageEntry>)
    ensures
        r is Some <==> exists|i: int|
            0 <= i < rows@.len() && (#[trigger] rows@[i]@).0 == pkg_name@,
        r matches Some(e) ==> e.name@ == pkg_name@ && (exists|i: int|
            0 <= i < rows@.len() && #[trigger] rows@[i]@ == e@) && (forall|j: int|
            0 <= j < rows@.len() && (#[trigger] rows@[j]@).0 == pkg_name@ ==> !version_gt(
                rows@[j]@.1,
                e.version@,
            )),
{
    find_package(rows, pkg_name)
}

/// A row satisfies the minimum-version search: right name, valid
/// version, at least the minimum.
pub open spec fn min_ver_match(
    row: (Seq<char>, Seq<char>, Seq<char>),
    name: Seq<char>,
    min: Seq<char>,
) -> bool {
    row.0 == name && constraint_satisfied(seq!['>', '='], min, row.1)
}

/// The highest-versioned row named `name` whose version is at least
/// `version`; `None` when no row qualifies, an error when the minimum
/// version is not a valid version string.
fn find_package_with_ver(rows: &Vec<DbPackageEntry>, package_name: &str, version: &str) -> (r:
    Result<Option<DbPackageEntry>, RepoQueryError>)
    ensures
        r is Ok <==> crate::version::version_valid(version@),
        r matches Err(e) ==> e == RepoQueryError::InvalidVersion,
        r matches Ok(o) ==> {
            &&& o is Some <==> exists|i: int|
                0 <= i < rows@.len() && min_ver_match(#[trigger] rows@[i]@, package_name@, version@)
            &&& o matches Some(e) ==> min_ver_match(e@, package_name@, version@) && (exists|i: int|
                0 <= i < rows@.len() && #[trigger] rows@[i]@ == e@) && (forall|j: int|
                0 <= j < rows@.len() && min_ver_match(#[trigger] rows@[j]@, package_name@, version@)
                    ==> !version_gt(rows@[j]@.1, e.version@))
        },
{
    if !crate::version::check_version(version) {
        return Err(RepoQueryError::InvalidVersion);
    }
    let q = PackageQuery {
        name: package_name.to_owned(),
        version: version.to_owned(),
        comparison_operator: ge_operator(),
    };
    Ok(find_matching_row(rows, &q))
}

/// The two-character `>=` operator.
fn ge_operator() -> (r: String)
    ensures
        r@ == seq!['>', '='],
{
    let r: &str = ">=";
    proof {
        reveal_strlit(">=");
        assert(r@ =~= seq!['>', '=']);
    }
    r.to_owned()
}

/// A row satisfies the constraint search: right name and a version the
/// constraint accepts.
pub open spec fn constraint_match(
    row: (Seq<char>, Seq<char>, Seq<char>),
    name: Seq<char>,
    op: Seq<char>,
    cver: Seq<char>,
) -> bool {
    row.0 == name && constraint_satisfied(op, cver, row.1)
}

/// The highest-versioned row that the constraint keeps: its name equals
/// the query's, its version satisfies the query's operator and version,
/// and no other such row ranks above it.
fn find_matching_row(rows: &Vec<DbPackageEntry>, q: &PackageQuery) -> (r: Option<DbPackageEntry>)
    requires
        q.eval_wf(),
    ensures
        r is Some <==> exists|i: int|
            0 <= i < rows@.len() && constraint_match(
                #[trigger] rows@[i]@,
                q.name@,
                q.comparison_operator@,
                q.version@,
            ),
        r matches Some(e) ==> constraint_match(e@, q.name@, q.comparison_operator@, q.version@)
            && (exists|i: int| 0 <= i < rows@.len() && #[trigger] rows@[i]@ == e@) && (forall|
            j: int,
        |
            0 <= j < rows@.len() && constraint_match(
                #[trigger] rows@[j]@,
                q.name@,
                q.comparison_operator@,
                q.version@,
            ) ==> !version_gt(rows@[j]@.1, e.version@)),
{
    let n = rows.len();
    let mut best: Option<usize> = None;
    let mut i: usize = 0;
    while i < n
        invariant
            i <= n,
            n == rows@.len(),
            q.eval_wf(),
            best is None ==> forall|j: int|
                0 <= j < i ==> !constraint_match(
                    #[trigger] rows@[j]@,
                    q.name@,
                    q.comparison_operator@,
                    q.version@,
                ),
            best matches Some(b) ==> b < i && b < n && constraint_match(
                rows@[b as int]@,
                q.name@,
                q.comparison_operator@,
                q.version@,
            ) && (forall|j: int|
                0 <= j < i && constraint_match(
                    #[trigger] rows@[j]@,
                    q.name@,
                    q.comparison_operator@,
                    q.version@,
                ) ==> !version_gt(rows@[j]@.1, rows@[b as int]@.1)),
        decreases n - i,
    {
        if str_eq(rows[i].name.as_str(), q.name.as_str()) && q.evaluate(rows[i].version.as_str()) {
            match best {
                None => {
                    proof {
                        lemma_vals_cmp_refl(version_vals(rows@[i as int]@.1));
                    }
                    best = Some(i);
                },
                Some(b) => {
                    if version_gt_exec(rows[i].version.as_str(), rows[b].version.as_str()) {
                        proof {
                            let bv = rows@[b as int]@.1;
                            let iv = rows@[i as int]@.1;
                            lemma_vals_cmp_refl(version_vals(iv));
                            assert forall|j: int|
                                0 <= j < i + 1 && constraint_match(
                                    #[trigger] rows@[j]@,
                                    q.name@,
                                    q.comparison_operator@,
                                    q.version@,
                                ) implies !version_gt(rows@[j]@.1, iv) by {
                                if j < i && version_gt(rows@[j]@.1, iv) {
                                    lemma_version_gt_trans(rows@[j]@.1, iv, bv);
                                }
                            }
                        }
                        best = Some(i);
                    }
                },
            }
        }
        i = i + 1;
    }
    match best {
        None => None,
        Some(b) => Some(rows[b].duplicate()),
    }
}

/// Searches a fetched repository index for the latest version of
/// `pkg_name` that is at least `version`; `None` when no row qualifies,
/// an error when the minimum version is not a valid version string.
pub fn search_pkg_with_ver(pkg_name: &str, rows: &Vec<DbPackageEntry>, version: &str) -> (r: Result<
    Option<DbPackageEntry>,
    RepoQueryError,
>)
    ensures
        r is Ok <==> crate::version::version_valid(version@),
        r matches Err(e) ==> e == RepoQueryError::InvalidVersion,
        r matches Ok(o) ==> {
            &&& o is Some <==> exists|i: int|
                0 <= i < rows@.len() && min_ver_match(#[trigger] rows@[i]@, pkg_name@, version@)
            &&& o matches Some(e) ==> min_ver_match(e@, pkg_name@, version@) && (exists|i: int|
                0 <= i < rows@.len() && #[trigger] rows@[i]@ == e@) && (forall|j: int|
                0 <= j < rows@.len() && min_ver_match(#[trigger] rows@[j]@, pkg_name@, version@)
                    ==> !version_gt(rows@[j]@.1, e.version@))
        },
{
    find_package_with_ver(rows, pkg_name, version)
}

/// Searches a fetched repository index for the highest version of
/// `package_name` that satisfies `comparison_operator` against
/// `version`; refuses an operator that is not one of the five.
pub fn find_package_by_version(
    rows: &Vec<DbPackageEntry>,
    package_name: &str,
    version: &str,
    comparison_operator: &str,
) -> (r: Result<Option<DbPackageEntry>, RepoQueryError>)
    ensures
        r is Ok <==> valid_op(comparison_operator@) && crate::version::version_valid(version@),
        r matches Err(e) ==> e == (if !valid_op(comparison_operator@) {
            RepoQueryError::InvalidOperator
        } else {
            RepoQueryError::InvalidVersion
        }),
        r matches Ok(o) ==> {
            &&& o is Some <==> exists|i: int|
                0 <= i < rows@.len() && constraint_match(
                    #[trigger] rows@[i]@,
                    package_name@,
                    comparison_operator@,
                    version@,
                )
            &&& o matches Some(e) ==> constraint_match(
                e@,
                package_name@,
                comparison_operator@,
                version@,
            ) && (exists|i: int| 0 <= i < rows@.len() && #[trigger] rows@[i]@ == e@) && (forall|
                j: int,
            |
                0 <= j < rows@.len() && constraint_match(
                    #[trigger] rows@[j]@,
                    package_name@,
                    comparison_operator@,
                    version@,
                ) ==> !version_gt(rows@[j]@.1, e.version@))
        },
{
    proof {
        reveal_strlit("=");
        reveal_strlit("<");
        reveal_strlit(">");
        reveal_strlit("<=");
        reveal_strlit(">=");
    }
    let op_ok = str_eq(comparison_operator, "=") || str_eq(comparison_operator, "<") || str_eq(
        comparison_operator,
        ">",
    ) || str_eq(comparison_operator, "<=") || str_eq(comparison_operator, ">=");
    proof {
        assert("="@ =~= seq!['=']);
        assert("<"@ =~= seq!['<']);
        assert(">"@ =~= seq!['>']);
        assert("<="@ =~= seq!['<', '=']);
        assert(">="@ =~= seq!['>', '=']);
    }
    if !op_ok {
        proof {
            assert(!valid_op(comparison_operator@));
        }
        return Err(RepoQueryError::InvalidOperator);
    }
    if !crate::version::check_version(version) {
        return Err(RepoQueryError::InvalidVersion);
    }
    let q = PackageQuery {
        name: package_name.to_owned(),
        version: version.to_owned(),
        comparison_operator: comparison_operator.to_owned(),
    };
    Ok(find_matching_row(rows, &q))
}


/// Some row of this index satisfies the constraint.
pub open spec fn index_has_match(rows: Seq<DbPackageEntry>, q: PackageQuery) -> bool {
    exists|i: int|
        0 <= i < rows.len() && constraint_match(
            #[trigger] rows[i]@,
            q.name@,
            q.comparison_operator@,
            q.version@,
        )
}

/// The multi-repository search policy: the indexes are tried in
/// configuration order and the first that satisfies the constraint at
/// all wins — there is no cross-repository best-version merge. Within
/// the winning index the highest satisfying row is returned, so a
/// package's provenance is always a single repository.
pub fn search_repositories(indexes: &Vec<Vec<DbPackageEntry>>, q: &PackageQuery) -> (r: Option<
    (usize, DbPackageEntry),
>)
    requires
        q.eval_wf(),
    ensures
        r is None <==> (forall|k: int|
            0 <= k < indexes@.len() ==> !index_has_match(#[trigger] indexes@[k]@, *q)),
        r matches Some(p) ==> {
            &&& p.0 < indexes@.len()
            &&& forall|k: int| 0 <= k < p.0 ==> !index_has_match(#[trigger] indexes@[k]@, *q)
            &&& index_has_match(indexes@[p.0 as int]@, *q)
            &&& constraint_match(p.1@, q.name@, q.comparison_operator@, q.version@)
            &&& exists|i: int|
                0 <= i < indexes@[p.0 as int]@.len() && #[trigger] indexes@[p.0 as int]@[i]@
                    == p.1@
            &&& forall|j: int|
                0 <= j < indexes@[p.0 as int]@.len() && constraint_match(
                    #[trigger] indexes@[p.0 as int]@[j]@,
                    q.name@,
                    q.comparison_operator@,
                    q.version@,
                ) ==> !version_gt(indexes@[p.0 as int]@[j]@.1, p.1.version@)
        },
{
    let n = indexes.len();
    let mut k: usize = 0;
    while k < n
        invariant
            k <= n,
            n == indexes@.len(),
            q.eval_wf(),
            forall|j: int| 0 <= j < k ==> !index_has_match(#[trigger] indexes@[j]@, *q),
        decreases n - k,
    {
        match find_matching_row(&indexes[k], q) {
            Some(e) => {
                return Some((k, e));
            },
            None => {},
        }
        k = k + 1;
    }
    None
}


/// The scheme family of an archive or index location.
#[derive(Debug, Clone, Copy, PartialEq, Eq, Structural)]
pub enum UrlScheme {
    /// `http://` or `https://`: fetched over the network.
    Http,
    /// `file://`: copied from the local filesystem.
    File,
    /// Anything else is refused.
    Unsupported,
}

/// Which scheme a location uses.
pub open spec fn spec_url_scheme(s: Seq<char>) -> UrlScheme {
    if crate::chars::spec_has_prefix(s, "http://"@) || crate::chars::spec_has_prefix(
        s,
        "https://"@,
    ) {
        UrlScheme::Http
    } else if crate::chars::spec_has_prefix(s, "file://"@) {
        UrlScheme::File
    } else {
        UrlScheme::Unsupported
    }
}

/// Classifies a location: network fetch, local copy, or refused.
pub fn classify_url(url: &str) -> (r: UrlScheme)
    ensures
        r == spec_url_scheme(url@),
{
    if crate::chars::has_prefix(url, "http://") || crate::chars::has_prefix(url, "https://") {
        UrlScheme::Http
    } else if crate::chars::has_prefix(url, "file://") {
        UrlScheme::File
    } else {
        UrlScheme::Unsupported
    }
}

/// The filesystem path a `file://` location names.
pub fn file_url_path(url: &str) -> (r: String)
    requires
        spec_url_scheme(url@) == UrlScheme::File,
    ensures
        r@ == url@.skip(7),
{
    proof {
        reveal_strlit("http://");
        reveal_strlit("https://");
        reveal_strlit("file://");
        assert(crate::chars::spec_has_prefix(url@, "file://"@));
        assert(url@.len() >= 7);
    }
    let n = url.unicode_len();
    let r = url.substring_char(7, n).to_owned();
    proof {
        assert(r@ =~= url@.skip(7));
    }
    r
}

} // verus!
