//! The local package database: the durable record of installed packages
//! (name, version, install path) and the per-package file manifest, a
//! line-oriented list of the absolute paths a package placed into the
//! target root.
//!
//! This module is the in-memory model of that table; persisting it is a
//! caller's concern. Keys are (name, version); inserting an existing key
//! overwrites its path, deleting a name removes every version of it.
use vstd::prelude::*;
use vstd::string::*;
use crate::manifest::PackageManifest;
use crate::version::{lemma_version_gt_trans, lemma_vals_cmp_refl, version_gt, version_gt_exec, version_vals};

verus! {

/// A database failure: the only one this model can produce is a miss.
#[derive(Debug, Clone, Copy, PartialEq, Eq, Structural)]
pub enum DbError {
    /// No record matched the given name.
    NotFound,
}

/// One row of the installed-package table.
#[derive(Debug)]
pub struct DbPackageEntry {
    pub name: String,
    pub version: String,
    pub path: String,
}

impl View for DbPackageEntry {
    type V = (Seq<char>, Seq<char>, Seq<char>);

    open spec fn view(&self) -> Self::V {
        (self.name@, self.version@, self.path@)
    }
}

impl DbPackageEntry {
    /// A field-for-field copy of this record.
    pub fn duplicate(&self) -> (r: DbPackageEntry)
        ensures
            r@ == self@,
    {
        DbPackageEntry {
            name: self.name.clone(),
            version: self.version.clone(),
            path: self.path.clone(),
        }
    }
}

/// The views of a record sequence, in order.
pub open spec fn entries_view(recs: Seq<DbPackageEntry>) -> Seq<(Seq<char>, Seq<char>, Seq<char>)> {
    recs.map_values(|e: DbPackageEntry| e@)
}

/// Some record with this name exists.
pub open spec fn has_name(recs: Seq<(Seq<char>, Seq<char>, Seq<char>)>, name: Seq<char>) -> bool {
    exists|i: int| 0 <= i < recs.len() && recs[i].0 == name
}

/// Some record with this exact (name, version) key exists.
pub open spec fn has_key(
    recs: Seq<(Seq<char>, Seq<char>, Seq<char>)>,
    name: Seq<char>,
    version: Seq<char>,
) -> bool {
    exists|i: int| 0 <= i < recs.len() && recs[i].0 == name && recs[i].1 == version
}

/// No two records share a (name, version) key.
pub open spec fn unique_keys(recs: Seq<(Seq<char>, Seq<char>, Seq<char>)>) -> bool {
    forall|p: int, q: int|
        0 <= p < q < recs.len() ==> !(#[trigger] recs[p].0 == #[trigger] recs[q].0 && recs[p].1
            == recs[q].1)
}

/// `recs` with every record named `name` removed, order kept.
pub open spec fn remove_name(
    recs: Seq<(Seq<char>, Seq<char>, Seq<char>)>,
    name: Seq<char>,
) -> Seq<(Seq<char>, Seq<char>, Seq<char>)>
    decreases recs.len(),
{
    if recs.len() == 0 {
        recs
    } else if recs[0].0 == name {
        remove_name(recs.drop_first(), name)
    } else {
        seq![recs[0]] + remove_name(recs.drop_first(), name)
    }
}

/// Removing a name it never had leaves the records unchanged.
pub proof fn lemma_remove_name_noop(recs: Seq<(Seq<char>, Seq<char>, Seq<char>)>, name: Seq<char>)
    requires
        forall|i: int| 0 <= i < recs.len() ==> #[trigger] recs[i].0 != name,
    ensures
        remove_name(recs, name) == recs,
    decreases recs.len(),
{
    if recs.len() > 0 {
        assert(recs[0].0 != name);
        assert forall|i: int| 0 <= i < recs.drop_first().len() implies #[trigger] recs.drop_first()[i].0
            != name by {
            assert(recs.drop_first()[i] == recs[i + 1]);
        }
        lemma_remove_name_noop(recs.drop_first(), name);
        assert(seq![recs[0]] + recs.drop_first() =~= recs);
    } else {
        assert(remove_name(recs, name) =~= recs);
    }
}

/// Removal distributes over appending one record at the back.
pub proof fn lemma_remove_name_append(
    recs: Seq<(Seq<char>, Seq<char>, Seq<char>)>,
    e: (Seq<char>, Seq<char>, Seq<char>),
    name: Seq<char>,
)
    ensures
        remove_name(recs.push(e), name) == remove_name(recs, name) + (if e.0 == name {
            Seq::<(Seq<char>, Seq<char>, Seq<char>)>::empty()
        } else {
            seq![e]
        }),
    decreases recs.len(),
{
    let tail = if e.0 == name {
        Seq::<(Seq<char>, Seq<char>, Seq<char>)>::empty()
    } else {
        seq![e]
    };
    if recs.len() == 0 {
        assert(recs.push(e)[0] == e);
        assert(recs.push(e).drop_first() =~= Seq::<(Seq<char>, Seq<char>, Seq<char>)>::empty());
        assert(remove_name(recs, name) =~= Seq::<(Seq<char>, Seq<char>, Seq<char>)>::empty());
        assert(remove_name(recs.push(e), name) =~= tail);
        assert(remove_name(recs, name) + tail =~= tail);
    } else {
        assert(recs.push(e)[0] == recs[0]);
        assert(recs.push(e).drop_first() =~= recs.drop_first().push(e));
        lemma_remove_name_append(recs.drop_first(), e, name);
        if recs[0].0 == name {
        } else {
            assert(seq![recs[0]] + (remove_name(recs.drop_first(), name) + tail) =~= (seq![recs[0]]
                + remove_name(recs.drop_first(), name)) + tail);
        }
    }
}

/// What remains after a removal: records with other names, all of them
/// taken from the input, with key uniqueness preserved.
pub proof fn lemma_remove_name_members(
    recs: Seq<(Seq<char>, Seq<char>, Seq<char>)>,
    name: Seq<char>,
)
    ensures
        forall|i: int|
            0 <= i < remove_name(recs, name).len() ==> #[trigger] remove_name(recs, name)[i].0
                != name,
        remove_name(recs, name).len() <= recs.len(),
        forall|i: int|
            0 <= i < remove_name(recs, name).len() ==> exists|j: int|
                0 <= j < recs.len() && recs[j] == #[trigger] remove_name(recs, name)[i],
        unique_keys(recs) ==> unique_keys(remove_name(recs, name)),
    decreases recs.len(),
{
    if recs.len() > 0 {
        let t = recs.drop_first();
        lemma_remove_name_members(t, name);
        let r = remove_name(recs, name);
        let rt = remove_name(t, name);
        assert forall|i: int| 0 <= i < r.len() implies exists|j: int|
            0 <= j < recs.len() && recs[j] == #[trigger] r[i] by {
            if recs[0].0 == name {
                let j0 = choose|j0: int| 0 <= j0 < t.len() && t[j0] == rt[i];
                assert(recs[j0 + 1] == rt[i]);
            } else {
                if i > 0 {
                    let j0 = choose|j0: int| 0 <= j0 < t.len() && t[j0] == rt[i - 1];
                    assert(recs[j0 + 1] == rt[i - 1]);
                } else {
                    assert(recs[0] == r[0]);
                }
            }
        }
        if unique_keys(recs) {
            assert forall|p: int, q: int| 0 <= p < q < t.len() implies !(#[trigger] t[p].0
                == #[trigger] t[q].0 && t[p].1 == t[q].1) by {
                assert(t[p] == recs[p + 1] && t[q] == recs[q + 1]);
            }
            assert(unique_keys(t));
            if recs[0].0 == name {
            } else {
                assert forall|p: int, q: int| 0 <= p < q < r.len() implies !(#[trigger] r[p].0
                    == #[trigger] r[q].0 && r[p].1 == r[q].1) by {
                    if p == 0 {
                        // r[q] comes from the tail; the head's key is unique
                        let j0 = choose|j0: int| 0 <= j0 < t.len() && t[j0] == rt[q - 1];
                        assert(recs[j0 + 1] == r[q]);
                    } else {
                        assert(r[p] == rt[p - 1] && r[q] == rt[q - 1]);
                    }
                }
            }
        }
    }
}

/// The installed-package table.
#[derive(Debug)]
pub struct LocalPackageDb {
    pub records: Vec<DbPackageEntry>,
}

impl View for LocalPackageDb {
    type V = Seq<(Seq<char>, Seq<char>, Seq<char>)>;

    open spec fn view(&self) -> Self::V {
        entries_view(self.records@)
    }
}

impl LocalPackageDb {
    /// Keys (name, version) are unique.
    pub open spec fn wf(self) -> bool {
        unique_keys(self@)
    }

    /// An empty database.
    pub fn new() -> (r: LocalPackageDb)
        ensures
            r.wf(),
            r@.len() == 0,
    {
        LocalPackageDb { records: Vec::new() }
    }

    /// Whether any version of `name` is installed.
    pub fn check_exist_pkg(&self, package_name: &str) -> (r: bool)
        ensures
            r == has_name(self@, package_name@),
    {
        let n = self.records.len();
        let mut i: usize = 0;
        while i < n
            invariant
                i <= n,
                n == self@.len(),
                self@.len() == self.records@.len(),
                forall|j: int| 0 <= j < i ==> #[trigger] self@[j].0 != package_name@,
            decreases n - i,
        {
            if crate::chars::str_eq(self.records[i].name.as_str(), package_name) {
                proof {
                    assert(self@[i as int].0 == package_name@);
                }
                return true;
            }
            i = i + 1;
        }
        false
    }

    /// Inserts or overwrites the record keyed (manifest.name,
    /// manifest.version), pointing it at `package_path`.
    pub fn add_package(&mut self, manifest: &PackageManifest, package_path: &str)
        requires
            old(self).wf(),
        ensures
            final(self).wf(),
            final(self)@.len() == old(self)@.len() + (if has_key(
                old(self)@,
                manifest.name@,
                manifest.version@,
            ) {
                0int
            } else {
                1int
            }),
            // records with other keys are untouched, in place
            forall|j: int|
                0 <= j < old(self)@.len() && !(#[trigger] old(self)@[j].0 == manifest.name@ && old(
                    self,
                )@[j].1 == manifest.version@) ==> final(self)@[j] == old(self)@[j],
            // the record with this key now carries the new path
            forall|j: int|
                0 <= j < old(self)@.len() && #[trigger] old(self)@[j].0 == manifest.name@ && old(
                    self,
                )@[j].1 == manifest.version@ ==> final(self)@[j] == (
                manifest.name@,
                manifest.version@,
                package_path@,
            ),
            !has_key(old(self)@, manifest.name@, manifest.version@) ==> final(self)@[old(
                self,
            )@.len() as int] == (manifest.name@, manifest.version@, package_path@),
    {
        let n = self.records.len();
        let mut i: usize = 0;
        while i < n
            invariant
                i <= n,
                n == self.records@.len(),
                self == old(self),
                old(self).wf(),
                forall|j: int|
                    0 <= j < i ==> !(#[trigger] self@[j].0 == manifest.name@ && self@[j].1
                        == manifest.version@),
            decreases n - i,
        {
            if crate::chars::str_eq(self.records[i].name.as_str(), manifest.name.as_str())
                && crate::chars::str_eq(
                self.records[i].version.as_str(),
                manifest.version.as_str(),
            ) {
                proof {
                    assert(old(self)@[i as int].0 == manifest.name@ && old(self)@[i as int].1
                        == manifest.version@);
                    assert(has_key(old(self)@, manifest.name@, manifest.version@));
                }
                let e = DbPackageEntry {
                    name: manifest.name.clone(),
                    version: manifest.version.clone(),
                    path: package_path.to_owned(),
                };
                self.records.set(i, e);
                proof {
                    assert(self@ =~= old(self)@.update(
                        i as int,
                        (manifest.name@, manifest.version@, package_path@),
                    ));
                    assert forall|j: int|
                        0 <= j < old(self)@.len() && #[trigger] old(self)@[j].0 == manifest.name@
                            && old(self)@[j].1 == manifest.version@ implies final(self)@[j] == (
                        manifest.name@,
                        manifest.version@,
                        package_path@,
                    ) by {
                        if j != i {
                            assert(false);
                        }
                    }
                }
                return ;
            }
            i = i + 1;
        }
        proof {
            assert(!has_key(old(self)@, manifest.name@, manifest.version@)) by {
                if has_key(old(self)@, manifest.name@, manifest.version@) {
                    let w = choose|w: int|
                        0 <= w < old(self)@.len() && old(self)@[w].0 == manifest.name@ && old(
                            self,
                        )@[w].1 == manifest.version@;
                    assert(!(self@[w].0 == manifest.name@ && self@[w].1 == manifest.version@));
                }
            }
        }
        let e = DbPackageEntry {
            name: manifest.name.clone(),
            version: manifest.version.clone(),
            path: package_path.to_owned(),
        };
        self.records.push(e);
        proof {
            assert(self@ =~= old(self)@.push(
                (manifest.name@, manifest.version@, package_path@),
            ));
            assert forall|p: int, q: int| 0 <= p < q < self@.len() implies !(#[trigger] self@[p].0
                == #[trigger] self@[q].0 && self@[p].1 == self@[q].1) by {
                if q == self@.len() - 1 {
                    assert(!(old(self)@[p].0 == manifest.name@ && old(self)@[p].1
                        == manifest.version@));
                }
            }
        }
    }

    /// Deletes every record named `name`; reports `NotFound` when no
    /// record matched (zero rows affected is an error, not ignored).
    pub fn del_package(&mut self, name: &str) -> (r: Result<(), DbError>)
        requires
            old(self).wf(),
        ensures
            final(self).wf(),
            final(self)@ == remove_name(old(self)@, name@),
            r is Ok <==> has_name(old(self)@, name@),
            r matches Err(e) ==> e == DbError::NotFound,
    {
        let n = self.records.len();
        let mut out: Vec<DbPackageEntry> = Vec::new();
        let mut found = false;
        let mut i: usize = 0;
        while i < n
            invariant
                i <= n,
                n == self.records@.len(),
                self == old(self),
                entries_view(out@) == remove_name(self@.take(i as int), name@),
                found == has_name(self@.take(i as int), name@),
            decreases n - i,
        {
            let ghost prefix = self@.take(i as int);
            proof {
                assert(self@.take(i + 1) =~= prefix.push(self@[i as int]));
                lemma_remove_name_append(prefix, self@[i as int], name@);
            }
            if crate::chars::str_eq(self.records[i].name.as_str(), name) {
                found = true;
                proof {
                    assert(self@.take(i + 1)[i as int].0 == name@);
                    assert(entries_view(out@) =~= remove_name(self@.take(i + 1), name@));
                }
            } else {
                out.push(self.records[i].duplicate());
                proof {
                    assert(entries_view(out@) =~= remove_name(prefix, name@).push(
                        self@[i as int],
                    ));
                }
            }
            proof {
                if !has_name(prefix, name@) && self@[i as int].0 != name@ {
                    assert forall|k: int|
                        0 <= k < self@.take(i + 1).len() implies #[trigger] self@.take(
                        i + 1,
                    )[k].0 != name@ by {
                        if k < i {
                            assert(self@.take(i + 1)[k] == prefix[k]);
                        }
                    }
                }
                if has_name(prefix, name@) {
                    let w = choose|w: int| 0 <= w < prefix.len() && prefix[w].0 == name@;
                    assert(self@.take(i + 1)[w].0 == name@);
                }
            }
            i = i + 1;
        }
        proof {
            assert(self@.take(n as int) =~= self@);
            lemma_remove_name_members(old(self)@, name@);
        }
        self.records = out;
        if found {
            Ok(())
        } else {
            Err(DbError::NotFound)
        }
    }

    /// Looks `name` up and returns its highest-versioned record, if any:
    /// no other record of that name ranks above the returned one.
    pub fn check_package_local(&self, package_name: &str) -> (r: Option<DbPackageEntry>)
        ensures
            r is Some <==> has_name(self@, package_name@),
            r matches Some(e) ==> e.name@ == package_name@ && (exists|i: int|
                0 <= i < self@.len() && #[trigger] self@[i] == e@) && (forall|j: int|
                0 <= j < self@.len() && #[trigger] self@[j].0 == package_name@ ==> !version_gt(
                    self@[j].1,
                    e.version@,
                )),
    {
        let n = self.records.len();
        let mut best: Option<usize> = None;
        let mut i: usize = 0;
        while i < n
            invariant
                i <= n,
                n == self.records@.len(),
                best is None ==> forall|j: int| 0 <= j < i ==> #[trigger] self@[j].0
                    != package_name@,
                best matches Some(b) ==> b < i && b < n && self@[b as int].0 == package_name@ && (
                forall|j: int|
                    0 <= j < i && #[trigger] self@[j].0 == package_name@ ==> !version_gt(
                        self@[j].1,
                        self@[b as int].1,
                    )),
            decreases n - i,
        {
            if crate::chars::str_eq(self.records[i].name.as_str(), package_name) {
                match best {
                    None => {
                        proof {
                            lemma_vals_cmp_refl(version_vals(self@[i as int].1));
                        }
                        best = Some(i);
                    },
                    Some(b) => {
                        if version_gt_exec(
                            self.records[i].version.as_str(),
                            self.records[b].version.as_str(),
                        ) {
                            proof {
                                let bv = self@[b as int].1;
                                let iv = self@[i as int].1;
                                lemma_vals_cmp_refl(version_vals(iv));
                                assert forall|j: int|
                                    0 <= j < i + 1 && #[trigger] self@[j].0 == package_name@
                                        implies !version_gt(self@[j].1, iv) by {
                                    if j < i && version_gt(self@[j].1, iv) {
                                        lemma_version_gt_trans(self@[j].1, iv, bv);
                                    }
                                }
                            }
                            best = Some(i);
                        } else {
                            proof {
                                assert(!version_gt(self@[i as int].1, self@[b as int].1));
                            }
                        }
                    },
                }
            }
            i = i + 1;
        }
        match best {
            None => None,
            Some(b) => {
                let r = self.records[b].duplicate();
                proof {
                    assert(self@[b as int] == r@);
                }
                Some(r)
            },
        }
    }

    /// The install path recorded for `name` (the first matching record).
    pub fn get_package_dir(&self, package_name: &str) -> (r: Option<String>)
        ensures
            r is Some <==> has_name(self@, package_name@),
            r matches Some(p) ==> exists|i: int|
                0 <= i < self@.len() && #[trigger] self@[i].0 == package_name@ && self@[i].2 == p@,
    {
        let n = self.records.len();
        let mut i: usize = 0;
        while i < n
            invariant
                i <= n,
                n == self.records@.len(),
                forall|j: int| 0 <= j < i ==> #[trigger] self@[j].0 != package_name@,
            decreases n - i,
        {
            if crate::chars::str_eq(self.records[i].name.as_str(), package_name) {
                let p = self.records[i].path.clone();
                proof {
                    assert(self@[i as int].0 == package_name@ && self@[i as int].2 == p@);
                }
                return Some(p);
            }
            i = i + 1;
        }
        None
    }
}

/// Checks that a package is present before an update; reports
/// `NotFound` when it is not.
pub fn update_package(db: &LocalPackageDb, name: &str) -> (r: Result<(), DbError>)
    ensures
        r is Ok <==> has_name(db@, name@),
        r matches Err(e) ==> e == DbError::NotFound,
{
    match db.check_package_local(name) {
        Some(_) => Ok(()),
        None => Err(DbError::NotFound),
    }
}


/// The rendered file manifest: each path on its own line, each line
/// ended by a newline.
pub open spec fn spec_render_lines(paths: Seq<Seq<char>>) -> Seq<char>
    decreases paths.len(),
{
    if paths.len() == 0 {
        Seq::empty()
    } else {
        paths[0] + seq!['\n'] + spec_render_lines(paths.drop_first())
    }
}

/// Rendering distributes over appending one path at the back.
pub proof fn lemma_render_lines_append(paths: Seq<Seq<char>>, p: Seq<char>)
    ensures
        spec_render_lines(paths.push(p)) == spec_render_lines(paths) + p + seq!['\n'],
    decreases paths.len(),
{
    if paths.len() == 0 {
        assert(paths.push(p)[0] == p);
        assert(paths.push(p).drop_first() =~= Seq::<Seq<char>>::empty());
        assert(spec_render_lines(Seq::<Seq<char>>::empty()) == Seq::<char>::empty());
        assert(spec_render_lines(paths.push(p)) =~= p + seq!['\n']);
        assert(spec_render_lines(paths) + p + seq!['\n'] =~= p + seq!['\n']);
    } else {
        assert(paths.push(p)[0] == paths[0]);
        assert(paths.push(p).drop_first() =~= paths.drop_first().push(p));
        lemma_render_lines_append(paths.drop_first(), p);
        assert(paths[0] + seq!['\n'] + (spec_render_lines(paths.drop_first()) + p + seq!['\n'])
            =~= (paths[0] + seq!['\n'] + spec_render_lines(paths.drop_first())) + p + seq!['\n']);
    }
}

/// The parsed file manifest: lines split at newlines, trimmed, empty
/// lines dropped.
pub open spec fn spec_parse_lines(s: Seq<char>) -> Seq<Seq<char>>
    decreases s.len(),
{
    if s.len() == 0 {
        Seq::empty()
    } else {
        let e = crate::chars::find_char(s, '\n') as int;
        let line = crate::chars::spec_trim(s.subrange(0, e));
        let rest = if e < s.len() {
            spec_parse_lines(s.skip(e + 1))
        } else {
            Seq::<Seq<char>>::empty()
        };
        (if line.len() > 0 {
            seq![line]
        } else {
            Seq::<Seq<char>>::empty()
        }) + rest
    }
}

/// Renders the list of installed paths as the package's file manifest,
/// one absolute path per line.
pub fn render_file_manifest(paths: &Vec<String>) -> (r: String)
    ensures
        r@ == spec_render_lines(crate::chars::strings_view(paths@)),
{
    let mut out = String::new();
    let n = paths.len();
    let mut i: usize = 0;
    proof {
        reveal_strlit("\n");
    }
    while i < n
        invariant
            i <= n,
            n == paths@.len(),
            "\n"@ == seq!['\n'],
            out@ == spec_render_lines(crate::chars::strings_view(paths@.take(i as int))),
        decreases n - i,
    {
        let ghost prefix = crate::chars::strings_view(paths@.take(i as int));
        out.append(paths[i].as_str());
        out.append("\n");
        proof {
            lemma_render_lines_append(prefix, paths@[i as int]@);
            assert(crate::chars::strings_view(paths@.take(i + 1)) =~= prefix.push(
                paths@[i as int]@,
            ));
            assert(out@ =~= spec_render_lines(prefix) + paths@[i as int]@ + seq!['\n']);
        }
        i = i + 1;
    }
    proof {
        assert(paths@.take(n as int) =~= paths@);
    }
    out
}

/// Reads a file manifest back: one path per non-empty line.
pub fn parse_file_manifest(text: &str) -> (r: Vec<String>)
    ensures
        crate::chars::strings_view(r@) == spec_parse_lines(text@),
{
    let n = text.unicode_len();
    let mut out: Vec<String> = Vec::new();
    let mut i: usize = 0;
    proof {
        assert(text@.skip(0) =~= text@);
        assert(crate::chars::strings_view(out@) =~= Seq::<Seq<char>>::empty());
        assert(Seq::<Seq<char>>::empty() + spec_parse_lines(text@) =~= spec_parse_lines(text@));
    }
    while i < n
        invariant
            i <= n,
            n == text@.len(),
            spec_parse_lines(text@) == crate::chars::strings_view(out@) + spec_parse_lines(
                text@.skip(i as int),
            ),
        decreases n - i,
    {
        let ghost before = crate::chars::strings_view(out@);
        let mut e: usize = i;
        while e < n && text.get_char(e) != '\n'
            invariant
                i <= e <= n,
                n == text@.len(),
                forall|k: int| i <= k < e ==> text@[k] != '\n',
            decreases n - e,
        {
            e = e + 1;
        }
        let ghost rem = text@.skip(i as int);
        proof {
            assert forall|k: int| 0 <= k < e - i implies rem[k] != '\n' by {
                assert(rem[k] == text@[i + k]);
            }
            if e < n {
                assert(rem[e - i] == text@[e as int]);
            }
            crate::chars::lemma_find_char_at(rem, '\n', e - i);
            assert(rem.subrange(0, e - i) =~= text@.subrange(i as int, e as int));
            if e < n {
                assert(rem.skip(e - i + 1) =~= text@.skip(e as int + 1));
            }
        }
        let line = crate::chars::trim(text.substring_char(i, e));
        if line.as_str().unicode_len() > 0 {
            out.push(line);
            proof {
                assert(crate::chars::strings_view(out@) =~= before.push(
                    crate::chars::spec_trim(text@.subrange(i as int, e as int)),
                ));
                assert(crate::chars::strings_view(out@) =~= before + seq![
                    crate::chars::spec_trim(text@.subrange(i as int, e as int)),
                ]);
            }
        } else {
            proof {
                assert(crate::chars::strings_view(out@) =~= before
                    + Seq::<Seq<char>>::empty());
            }
        }
        proof {
            vstd::seq_lib::lemma_concat_associative(
                before,
                if crate::chars::spec_trim(text@.subrange(i as int, e as int)).len() > 0 {
                    seq![crate::chars::spec_trim(text@.subrange(i as int, e as int))]
                } else {
                    Seq::<Seq<char>>::empty()
                },
                if e < n {
                    spec_parse_lines(text@.skip(e as int + 1))
                } else {
                    Seq::<Seq<char>>::empty()
                },
            );
        }
        if e < n {
            i = e + 1;
        } else {
            i = n;
            proof {
                assert(spec_parse_lines(text@.skip(n as int)) =~= Seq::<Seq<char>>::empty());
            }
        }
    }
    proof {
        assert(spec_parse_lines(text@.skip(n as int)) =~= Seq::<Seq<char>>::empty());
        assert(crate::chars::strings_view(out@) + Seq::<Seq<char>>::empty() =~= crate::chars::strings_view(out@));
    }
    out
}

/// Writing a file manifest and reading it back yields the same paths,
/// provided each path is non-empty, has no newline, and no whitespace
/// at either end.
pub proof fn lemma_file_manifest_round_trip(paths: Seq<Seq<char>>)
    requires
        forall|i: int|
            0 <= i < paths.len() ==> (#[trigger] paths[i]).len() > 0 && !crate::chars::is_space_char(
                paths[i][0],
            ) && !crate::chars::is_space_char(paths[i][paths[i].len() - 1]),
        forall|i: int, k: int|
            0 <= i < paths.len() && 0 <= k < paths[i].len() ==> #[trigger] paths[i][k] != '\n',
    ensures
        spec_parse_lines(spec_render_lines(paths)) == paths,
    decreases paths.len(),
{
    if paths.len() == 0 {
    } else {
        let p0 = paths[0];
        let r = spec_render_lines(paths);
        let rest = spec_render_lines(paths.drop_first());
        assert(r == p0 + seq!['\n'] + rest);
        assert(r.len() == p0.len() + 1 + rest.len());
        assert forall|k: int| 0 <= k < p0.len() implies r[k] != '\n' by {
            assert(r[k] == p0[k]);
        }
        assert(r[p0.len() as int] == '\n');
        crate::chars::lemma_find_char_at(r, '\n', p0.len() as int);
        assert(r.subrange(0, p0.len() as int) =~= p0);
        crate::chars::lemma_trim_identity(p0);
        assert(r.skip(p0.len() as int + 1) =~= rest);
        assert forall|i: int|
            0 <= i < paths.drop_first().len() implies (#[trigger] paths.drop_first()[i]).len() > 0
                && !crate::chars::is_space_char(paths.drop_first()[i][0])
                && !crate::chars::is_space_char(
                paths.drop_first()[i][paths.drop_first()[i].len() - 1],
            ) by {
            assert(paths.drop_first()[i] == paths[i + 1]);
        }
        assert forall|i: int, k: int|
            0 <= i < paths.drop_first().len() && 0 <= k < paths.drop_first()[i].len()
                implies #[trigger] paths.drop_first()[i][k] != '\n' by {
            assert(paths.drop_first()[i] == paths[i + 1]);
        }
        lemma_file_manifest_round_trip(paths.drop_first());
        assert(spec_parse_lines(r) =~= seq![p0] + paths.drop_first());
        assert(seq![p0] + paths.drop_first() =~= paths);
    }
}

} // verus!
