//! Package manifests: the metadata file a package archive carries,
//! naming the package, its version, and its dependency constraints.
//!
//! The format is line-oriented: `name: <text>` and `version: <text>`
//! entries, an optional `depens:` header followed by `- <constraint>`
//! items, `#` comments, and blank lines. Values may be wrapped in single
//! or double quotes. The dependency list is optional; `name` and
//! `version` are required.
use vstd::prelude::*;
use vstd::string::*;
use crate::chars::{find_char, lemma_find_char_at, spec_trim, strings_view, str_eq, trim};
use crate::db::spec_parse_lines;

verus! {

/// Why a manifest was rejected.
#[derive(Debug, Clone, Copy, PartialEq, Eq, Structural)]
pub enum ManifestError {
    /// `name` or `version` is absent or empty.
    MissingField,
    /// A line is neither a key, a list item, a comment nor blank.
    InvalidSyntax,
}

/// Metadata of one package: name, version, and the dependency
/// constraint strings, in declaration order.
#[derive(Debug)]
pub struct PackageManifest {
    pub name: String,
    pub version: String,
    pub depens: Vec<String>,
}

/// The state of the line-by-line manifest reading.
pub struct ManifestModel {
    pub name: Option<Seq<char>>,
    pub version: Option<Seq<char>>,
    pub depens: Seq<Seq<char>>,
    pub in_list: bool,
    pub bad: bool,
}

/// A value with one pair of surrounding quotes removed.
pub open spec fn unquote(v: Seq<char>) -> Seq<char> {
    if v.len() >= 2 && ((v[0] == '"' && v[v.len() - 1] == '"') || (v[0] == '\'' && v[v.len() - 1]
        == '\'')) {
        v.subrange(1, v.len() - 1)
    } else {
        v
    }
}

/// How one trimmed, non-empty line changes the reading state.
pub open spec fn manifest_step(st: ManifestModel, t: Seq<char>) -> ManifestModel {
    if st.bad {
        st
    } else if t[0] == '#' {
        st
    } else if t[0] == '-' {
        if !st.in_list {
            ManifestModel { bad: true, ..st }
        } else {
            let item = unquote(spec_trim(t.subrange(1, t.len() as int)));
            if item.len() == 0 {
                st
            } else {
                ManifestModel { depens: st.depens.push(item), ..st }
            }
        }
    } else if find_char(t, ':') < t.len() {
        let key = spec_trim(t.subrange(0, find_char(t, ':') as int));
        let val = unquote(spec_trim(t.subrange(find_char(t, ':') as int + 1, t.len() as int)));
        if key == "name"@ {
            ManifestModel { name: Some(val), in_list: false, ..st }
        } else if key == "version"@ {
            ManifestModel { version: Some(val), in_list: false, ..st }
        } else if key == "depens"@ {
            ManifestModel { in_list: true, ..st }
        } else {
            ManifestModel { in_list: false, ..st }
        }
    } else {
        ManifestModel { bad: true, ..st }
    }
}

/// The state before any line is read.
pub open spec fn manifest_init() -> ManifestModel {
    ManifestModel {
        name: None,
        version: None,
        depens: Seq::empty(),
        in_list: false,
        bad: false,
    }
}

/// Reads the given lines in order.
pub open spec fn manifest_fold(lines: Seq<Seq<char>>, st: ManifestModel) -> ManifestModel
    decreases lines.len(),
{
    if lines.len() == 0 {
        st
    } else {
        manifest_fold(lines.drop_first(), manifest_step(st, lines[0]))
    }
}

/// The model a manifest text denotes.
pub open spec fn spec_manifest(text: Seq<char>) -> ManifestModel {
    manifest_fold(spec_parse_lines(text), manifest_init())
}

/// A read manifest is acceptable: no syntax error, and a non-empty name
/// and version were present.
pub open spec fn manifest_ok(m: ManifestModel) -> bool {
    &&& !m.bad
    &&& m.name matches Some(n) && n.len() > 0
    &&& m.version matches Some(v) && v.len() > 0
}

/// The error a failing read reports.
pub open spec fn manifest_err(m: ManifestModel) -> ManifestError {
    if m.bad {
        ManifestError::InvalidSyntax
    } else {
        ManifestError::MissingField
    }
}

/// Folding distributes over appending one line at the back.
proof fn lemma_manifest_fold_append(lines: Seq<Seq<char>>, st: ManifestModel, t: Seq<char>)
    ensures
        manifest_fold(lines.push(t), st) == manifest_fold(lines, manifest_step(st, t))
            || manifest_fold(lines.push(t), st) == manifest_step(manifest_fold(lines, st), t),
        manifest_fold(lines.push(t), st) == manifest_step(manifest_fold(lines, st), t),
    decreases lines.len(),
{
    if lines.len() == 0 {
        assert(lines.push(t)[0] == t);
        assert(lines.push(t).drop_first() =~= Seq::<Seq<char>>::empty());
        assert(manifest_fold(Seq::<Seq<char>>::empty(), manifest_step(st, t)) == manifest_step(
            st,
            t,
        ));
    } else {
        assert(lines.push(t)[0] == lines[0]);
        assert(lines.push(t).drop_first() =~= lines.drop_first().push(t));
        lemma_manifest_fold_append(lines.drop_first(), manifest_step(st, lines[0]), t);
    }
}

/// A syntax error is never forgotten by later lines.
proof fn lemma_manifest_fold_bad(lines: Seq<Seq<char>>, st: ManifestModel)
    requires
        st.bad,
    ensures
        manifest_fold(lines, st) == st,
    decreases lines.len(),
{
    if lines.len() > 0 {
        assert(manifest_step(st, lines[0]) == st);
        lemma_manifest_fold_bad(lines.drop_first(), st);
    }
}

/// The view of an optional string.
pub open spec fn opt_view(o: Option<String>) -> Option<Seq<char>> {
    match o {
        Some(s) => Some(s@),
        None => None,
    }
}

/// Strips one pair of surrounding quotes, if present.
fn unquote_exec(v: String) -> (r: String)
    ensures
        r@ == unquote(v@),
{
    let s = v.as_str();
    let n = s.unicode_len();
    if n >= 2 {
        let a = s.get_char(0);
        let b = s.get_char(n - 1);
        if (a == '"' && b == '"') || (a == '\'' && b == '\'') {
            return s.substring_char(1, n - 1).to_owned();
        }
    }
    v
}

/// Reads a manifest text: `name` and `version` entries and the optional
/// `depens:` list, exactly as `spec_manifest` describes.
pub fn parse_manifest(text: &str) -> (r: Result<PackageManifest, ManifestError>)
    ensures
        r is Ok <==> manifest_ok(spec_manifest(text@)),
        r matches Ok(m) ==> Some(m.name@) == spec_manifest(text@).name && Some(m.version@)
            == spec_manifest(text@).version && strings_view(m.depens@) == spec_manifest(
            text@,
        ).depens,
        r matches Err(e) ==> e == manifest_err(spec_manifest(text@)),
{
    let lines = crate::db::parse_file_manifest(text);
    let ghost all = spec_parse_lines(text@);
    let n = lines.len();
    let mut name: Option<String> = None;
    let mut version: Option<String> = None;
    let mut depens: Vec<String> = Vec::new();
    let mut in_list = false;
    let mut i: usize = 0;
    proof {
        assert(strings_view(lines@) == all);
        assert(all.take(0) =~= Seq::<Seq<char>>::empty());
    }
    while i < n
        invariant
            i <= n,
            n == lines@.len(),
            strings_view(lines@) == all,
            all == spec_parse_lines(text@),
            ({
                let st = manifest_fold(all.take(i as int), manifest_init());
                &&& !st.bad
                &&& st.name == opt_view(name)
                &&& st.version == opt_view(version)
                &&& st.depens == strings_view(depens@)
                &&& st.in_list == in_list
            }),
        decreases n - i,
    {
        let ghost st = manifest_fold(all.take(i as int), manifest_init());
        let ghost t = all[i as int];
        proof {
            assert(all.take(i + 1) =~= all.take(i as int).push(t));
            lemma_manifest_fold_append(all.take(i as int), manifest_init(), t);
            // lines are non-empty, so indexing their first character is sound
            assert(t == lines@[i as int]@);
        }
        let line = lines[i].as_str();
        let ln = line.unicode_len();
        proof {
            // every parsed line is non-empty: it came from spec_parse_lines
            lemma_parsed_lines_nonempty(text@);
            assert(t.len() > 0);
        }
        let c0 = line.get_char(0);
        if c0 == '#' {
            // comment: no change
        } else if c0 == '-' {
            if !in_list {
                proof {
                    lemma_manifest_fold_bad(
                        all.skip(i as int + 1),
                        manifest_step(st, t),
                    );
                    lemma_fold_take_skip(all, i as int + 1);
                }
                return Err(ManifestError::InvalidSyntax);
            }
            let item = unquote_exec(trim(line.substring_char(1, ln)));
            if item.as_str().unicode_len() == 0 {
                // a bare dash or an empty item: ignored
            } else {
                depens.push(item);
                proof {
                    assert(strings_view(depens@) =~= st.depens.push(
                        unquote(spec_trim(t.subrange(1, t.len() as int))),
                    ));
                }
            }
        } else {
            // a key line must hold a colon
            let mut e: usize = 0;
            while e < ln && line.get_char(e) != ':'
                invariant
                    e <= ln,
                    ln == line@.len(),
                    forall|k: int| 0 <= k < e ==> line@[k] != ':',
                decreases ln - e,
            {
                e = e + 1;
            }
            proof {
                lemma_find_char_at(t, ':', e as int);
            }
            if e == ln {
                proof {
                    lemma_manifest_fold_bad(
                        all.skip(i as int + 1),
                        manifest_step(st, t),
                    );
                    lemma_fold_take_skip(all, i as int + 1);
                }
                return Err(ManifestError::InvalidSyntax);
            }
            let key = trim(line.substring_char(0, e));
            let val = unquote_exec(trim(line.substring_char(e + 1, ln)));
            if str_eq(key.as_str(), "name") {
                name = Some(val);
                in_list = false;
            } else if str_eq(key.as_str(), "version") {
                version = Some(val);
                in_list = false;
            } else if str_eq(key.as_str(), "depens") {
                in_list = true;
            } else {
                in_list = false;
            }
        }
        i = i + 1;
    }
    proof {
        assert(all.take(n as int) =~= all);
    }
    let name = match name {
        Some(s) => s,
        None => {
            return Err(ManifestError::MissingField);
        },
    };
    let version = match version {
        Some(s) => s,
        None => {
            return Err(ManifestError::MissingField);
        },
    };
    if name.as_str().unicode_len() == 0 || version.as_str().unicode_len() == 0 {
        return Err(ManifestError::MissingField);
    }
    Ok(PackageManifest { name, version, depens })
}

/// Every line `spec_parse_lines` yields is non-empty.
pub proof fn lemma_parsed_lines_nonempty(s: Seq<char>)
    ensures
        forall|i: int| 0 <= i < spec_parse_lines(s).len() ==> (#[trigger] spec_parse_lines(
            s,
        )[i]).len() > 0,
    decreases s.len(),
{
    if s.len() > 0 {
        let e = crate::chars::find_char(s, '\n') as int;
        crate::chars::lemma_find_char(s, '\n');
        let line = crate::chars::spec_trim(s.subrange(0, e));
        let rest = if e < s.len() {
            spec_parse_lines(s.skip(e + 1))
        } else {
            Seq::<Seq<char>>::empty()
        };
        if e < s.len() {
            lemma_parsed_lines_nonempty(s.skip(e + 1));
        }
        assert forall|i: int| 0 <= i < spec_parse_lines(s).len() implies (
        #[trigger] spec_parse_lines(s)[i]).len() > 0 by {
            if line.len() > 0 {
                if i > 0 {
                    assert(spec_parse_lines(s)[i] == rest[i - 1]);
                }
            } else {
                assert(spec_parse_lines(s)[i] == rest[i]);
            }
        }
    }
}

/// Folding the whole list equals folding a prefix, then the rest.
proof fn lemma_fold_take_skip(lines: Seq<Seq<char>>, k: int)
    requires
        0 <= k <= lines.len(),
    ensures
        manifest_fold(lines, manifest_init()) == manifest_fold(
            lines.skip(k),
            manifest_fold(lines.take(k), manifest_init()),
        ),
    decreases k,
{
    if k == 0 {
        assert(lines.take(0) =~= Seq::<Seq<char>>::empty());
        assert(lines.skip(0) =~= lines);
    } else {
        lemma_fold_take_skip(lines, k - 1);
        assert(lines.take(k) =~= lines.take(k - 1).push(lines[k - 1]));
        lemma_manifest_fold_append(lines.take(k - 1), manifest_init(), lines[k - 1]);
        // one unfold of the middle fold
        let stk1 = manifest_fold(lines.take(k - 1), manifest_init());
        assert(lines.skip(k - 1)[0] == lines[k - 1]);
        assert(lines.skip(k - 1).drop_first() =~= lines.skip(k));
        assert(manifest_fold(lines.skip(k - 1), stk1) == manifest_fold(
            lines.skip(k),
            manifest_step(stk1, lines[k - 1]),
        ));
    }
}

} // verus!
