//! The install transaction, as a state machine.
//!
//! One engine drives one package through
//! `Hashing -> Unpacking -> ManifestParsed -> (AwaitingConfirmation) ->
//! DependencyCheck -> ResolvingDependencies -> RunningInstallHook ->
//! MaterializingFiles -> RegisteringPackage -> Done`, with `Failed`
//! reachable from any stage. The engine owns every decision; a driver
//! performs the outside work (reading the archive, fetching indexes,
//! running the hook, copying files) and reports what happened. A
//! dependency is handed back to the driver to install fully — its own
//! engine runs to completion — before this engine moves on, so every
//! dependency is in place before this package's hook runs.
use vstd::prelude::*;
use vstd::string::*;
use vstd::utf8::{decode_utf8, valid_utf8};
use crate::archive::{
    entries_view, extract, find_manifest_entry, gunzip_of, gunzip_ok_of, has_payload,
    has_payload_entry, hash_package, is_manifest_entry, package_hash, payload_dests,
    payload_file_paths, tar_entries_of, tar_ok_of, ArchiveEntry, ExtractError,
};
use crate::chars::strings_view;
use crate::db::{has_key, has_name, LocalPackageDb};
use crate::manifest::{
    manifest_err, manifest_ok, parse_manifest, spec_manifest, ManifestError, PackageManifest,
};
use crate::query::{parse_err, parse_ok, spec_name, spec_op, spec_ver, PackageQuery, ParseError};
use crate::repo::DbPackageEntry;
use crate::version::version_gt;

verus! {

/// The stages of one install transaction.
#[derive(Debug, Clone, Copy, PartialEq, Eq, Structural)]
pub enum InstallState {
    Hashing,
    Unpacking,
    ManifestParsed,
    AwaitingConfirmation,
    DependencyCheck,
    ResolvingDependencies,
    RunningInstallHook,
    MaterializingFiles,
    RegisteringPackage,
    Done,
    Failed,
}

/// Why an install transaction failed.
#[derive(Debug, Clone, Copy, PartialEq, Eq, Structural)]
pub enum InstallError {
    /// The archive could not be decompressed or unpacked.
    ExtractFailed(ExtractError),
    /// The archive has no metadata file.
    ManifestMissing,
    /// The metadata file is not text.
    ManifestNotText,
    /// The metadata file could not be read.
    ManifestFailed(ManifestError),
    /// The archive has no `mask` payload subtree.
    PayloadMissing,
    /// A dependency constraint string could not be parsed.
    DependencyParseFailed(ParseError),
    /// No repository satisfies a dependency constraint.
    DependencyNotFound,
    /// The user declined the confirmation prompt.
    Declined,
    /// Copying the payload into the target root failed.
    MaterializeFailed,
}

/// What one resolution step asks the driver to do next.
#[derive(Debug, Clone, Copy, PartialEq, Eq, Structural)]
pub enum ResolveStep {
    /// Every dependency is handled; the hook stage is next.
    AllResolved,
    /// The current dependency is already installed; nothing to do.
    DepAlreadyInstalled,
    /// Query the repositories, in order, for the pending constraint.
    NeedLookup,
}

/// The decoded text of the archive's metadata file, and what it says,
/// tie the parsed manifest to the archive entry it came from.
pub open spec fn manifest_matches_archive(
    m: &PackageManifest,
    es: Seq<(Seq<char>, bool, Seq<u8>)>,
) -> bool {
    exists|i: int|
        {
            &&& 0 <= i < es.len()
            &&& is_manifest_entry(#[trigger] es[i])
            &&& (forall|j: int| 0 <= j < i ==> !is_manifest_entry(#[trigger] es[j]))
            &&& valid_utf8(es[i].2)
            &&& manifest_ok(spec_manifest(decode_utf8(es[i].2)))
            &&& Some(m.name@) == spec_manifest(decode_utf8(es[i].2)).name
            &&& Some(m.version@) == spec_manifest(decode_utf8(es[i].2)).version
            &&& strings_view(m.depens@) == spec_manifest(decode_utf8(es[i].2)).depens
        }
}

/// Some entry is the package's metadata file.
pub open spec fn has_manifest_entry(es: Seq<(Seq<char>, bool, Seq<u8>)>) -> bool {
    exists|i: int| 0 <= i < es.len() && is_manifest_entry(#[trigger] es[i])
}

/// The index of the first metadata-file entry.
pub open spec fn first_manifest_idx(es: Seq<(Seq<char>, bool, Seq<u8>)>) -> int {
    choose|i: int|
        0 <= i < es.len() && is_manifest_entry(#[trigger] es[i]) && (forall|j: int|
            0 <= j < i ==> !is_manifest_entry(#[trigger] es[j]))
}

/// When any metadata entry exists, a first one exists, and
/// `first_manifest_idx` denotes exactly it.
pub proof fn lemma_first_manifest_idx(es: Seq<(Seq<char>, bool, Seq<u8>)>, w: int)
    requires
        0 <= w < es.len(),
        is_manifest_entry(es[w]),
    ensures
        0 <= first_manifest_idx(es) <= w,
        is_manifest_entry(es[first_manifest_idx(es)]),
        forall|j: int| 0 <= j < first_manifest_idx(es) ==> !is_manifest_entry(#[trigger] es[j]),
    decreases w,
{
    if forall|j: int| 0 <= j < w ==> !is_manifest_entry(#[trigger] es[j]) {
        // w itself is the first: the chosen index satisfies the same
        // characterization, and two firsts coincide
        assert(0 <= w < es.len() && is_manifest_entry(es[w]) && (forall|j: int|
            0 <= j < w ==> !is_manifest_entry(#[trigger] es[j])));
        let c = first_manifest_idx(es);
        assert(0 <= c < es.len() && is_manifest_entry(es[c]) && (forall|j: int|
            0 <= j < c ==> !is_manifest_entry(#[trigger] es[j])));
        if c < w {
            assert(!is_manifest_entry(es[c]));
        }
        if w < c {
            assert(!is_manifest_entry(es[w]));
        }
    } else {
        let j = choose|j: int| 0 <= j < w && is_manifest_entry(#[trigger] es[j]);
        lemma_first_manifest_idx(es, j);
    }
}

/// The archive unpacks and carries an acceptable package: the bytes
/// decompress to a readable tar whose first metadata entry is text
/// naming the package, and a `mask` payload subtree is present.
pub open spec fn unpack_ok(data: Seq<u8>) -> bool {
    &&& gunzip_ok_of(data)
    &&& tar_ok_of(gunzip_of(data))
    &&& ({
        let es = tar_entries_of(gunzip_of(data));
        &&& has_manifest_entry(es)
        &&& valid_utf8(es[first_manifest_idx(es)].2)
        &&& manifest_ok(spec_manifest(decode_utf8(es[first_manifest_idx(es)].2)))
        &&& has_payload(es)
    })
}

/// The error a failing unpack reports, by the first stage that fails.
pub open spec fn spec_unpack_err(data: Seq<u8>) -> InstallError {
    if !gunzip_ok_of(data) {
        InstallError::ExtractFailed(ExtractError::CorruptGzip)
    } else if !tar_ok_of(gunzip_of(data)) {
        InstallError::ExtractFailed(ExtractError::CorruptArchive)
    } else {
        let es = tar_entries_of(gunzip_of(data));
        if !has_manifest_entry(es) {
            InstallError::ManifestMissing
        } else if !valid_utf8(es[first_manifest_idx(es)].2) {
            InstallError::ManifestNotText
        } else if !manifest_ok(spec_manifest(decode_utf8(es[first_manifest_idx(es)].2))) {
            InstallError::ManifestFailed(
                manifest_err(spec_manifest(decode_utf8(es[first_manifest_idx(es)].2))),
            )
        } else {
            InstallError::PayloadMissing
        }
    }
}

/// The permanent install directory of a package.
pub open spec fn spec_install_dir(name: Seq<char>, version: Seq<char>) -> Seq<char> {
    "/var/lib/konpac/packages/"@ + name + seq!['-'] + version
}

/// One install transaction.
pub struct InstallEngine {
    pub state: InstallState,
    pub skip_confirmation: bool,
    pub hash: String,
    pub manifest: Option<PackageManifest>,
    pub payload_paths: Vec<String>,
    pub deps_handled: usize,
    pub pending: Option<PackageQuery>,
    pub error: Option<InstallError>,
}

impl InstallEngine {
    /// The engine's stage-dependent well-formedness: once the manifest
    /// is parsed it stays available, the handled-dependency count never
    /// passes the declared list, and the hook and everything after it
    /// are reachable only with every dependency handled.
    pub open spec fn wf(self) -> bool {
        &&& (match self.state {
            InstallState::Hashing => true,
            InstallState::Unpacking => true,
            InstallState::Failed => self.error is Some,
            _ => self.manifest is Some,
        })
        &&& (self.state == InstallState::ResolvingDependencies ==> (self.manifest matches Some(
            m,
        ) && self.deps_handled <= m.depens@.len()))
        &&& ((self.state == InstallState::RunningInstallHook || self.state
            == InstallState::MaterializingFiles || self.state == InstallState::RegisteringPackage)
            ==> (self.manifest matches Some(m) && self.deps_handled == m.depens@.len()))
        &&& (self.state == InstallState::ResolvingDependencies && self.pending is Some ==> {
            &&& self.manifest matches Some(m)
            &&& self.deps_handled < m.depens@.len()
            &&& self.pending matches Some(q)
            &&& q.wf()
        })
    }

    /// A fresh engine, ready to hash an archive.
    pub fn new(skip_confirmation: bool) -> (r: InstallEngine)
        ensures
            r.wf(),
            r.state == InstallState::Hashing,
            r.skip_confirmation == skip_confirmation,
    {
        InstallEngine {
            state: InstallState::Hashing,
            skip_confirmation,
            hash: String::new(),
            manifest: None,
            payload_paths: Vec::new(),
            deps_handled: 0,
            pending: None,
            error: None,
        }
    }

    /// Hashes the archive; the hash names the staging directory, so an
    /// unchanged archive reuses prior extraction work.
    pub fn step_hash(&mut self, archive: &Vec<u8>)
        requires
            old(self).wf(),
            old(self).state == InstallState::Hashing,
        ensures
            final(self).wf(),
            final(self).state == InstallState::Unpacking,
            final(self).hash@ == package_hash(archive@),
            final(self).skip_confirmation == old(self).skip_confirmation,
    {
        self.hash = hash_package(archive);
        self.state = InstallState::Unpacking;
    }

    /// Unpacks the archive and parses its manifest. This succeeds
    /// exactly when the archive is a well-formed package: a decodable
    /// gzip of a readable tar whose first metadata entry is text with
    /// an acceptable manifest, and a `mask` payload subtree. On success
    /// the returned entries are exactly the archive's contents, the
    /// stored manifest says exactly what the archive's metadata file
    /// says, and the stored payload paths are the payload files'
    /// destinations; on failure the first failing stage names the
    /// error. Any failure here is fatal for the package: nothing is
    /// registered.
    pub fn step_unpack(&mut self, archive: &Vec<u8>) -> (r: Result<Vec<ArchiveEntry>, InstallError>)
        requires
            old(self).wf(),
            old(self).state == InstallState::Unpacking,
        ensures
            final(self).wf(),
            final(self).skip_confirmation == old(self).skip_confirmation,
            final(self).hash == old(self).hash,
            r is Ok <==> unpack_ok(archive@),
            r matches Ok(es) ==> {
                &&& entries_view(es@) == tar_entries_of(gunzip_of(archive@))
                &&& final(self).state == InstallState::ManifestParsed
                &&& final(self).manifest matches Some(m) && manifest_matches_archive(
                    &m,
                    entries_view(es@),
                )
                &&& strings_view(final(self).payload_paths@) == payload_dests(
                    tar_entries_of(gunzip_of(archive@)),
                )
            },
            r matches Err(e) ==> final(self).state == InstallState::Failed && final(self).error
                == Some(e) && e == spec_unpack_err(archive@),
    {
        let entries = match extract(archive) {
            Ok(es) => es,
            Err(e) => {
                self.error = Some(InstallError::ExtractFailed(e));
                self.state = InstallState::Failed;
                return Err(InstallError::ExtractFailed(e));
            },
        };
        let ghost esv = tar_entries_of(gunzip_of(archive@));
        let mi = match find_manifest_entry(&entries) {
            Some(i) => i,
            None => {
                proof {
                    assert(!has_manifest_entry(esv)) by {
                        if has_manifest_entry(esv) {
                            let w = choose|w: int|
                                0 <= w < esv.len() && is_manifest_entry(#[trigger] esv[w]);
                            assert(is_manifest_entry(entries@[w]@));
                        }
                    }
                }
                self.error = Some(InstallError::ManifestMissing);
                self.state = InstallState::Failed;
                return Err(InstallError::ManifestMissing);
            },
        };
        proof {
            assert(entries@[mi as int]@ == esv[mi as int]);
            assert forall|j: int| 0 <= j < mi implies !is_manifest_entry(#[trigger] esv[j]) by {
                assert(esv[j] == entries@[j]@);
            }
            lemma_first_manifest_idx(esv, mi as int);
            // the found index and the first index coincide
            if first_manifest_idx(esv) < mi {
                assert(!is_manifest_entry(esv[first_manifest_idx(esv)]));
            }
            assert(first_manifest_idx(esv) == mi);
        }
        let text = match crate::chars::bytes_to_string(&entries[mi].data) {
            Some(t) => t,
            None => {
                self.error = Some(InstallError::ManifestNotText);
                self.state = InstallState::Failed;
                return Err(InstallError::ManifestNotText);
            },
        };
        let m = match parse_manifest(text.as_str()) {
            Ok(m) => m,
            Err(e) => {
                self.error = Some(InstallError::ManifestFailed(e));
                self.state = InstallState::Failed;
                return Err(InstallError::ManifestFailed(e));
            },
        };
        if !has_payload_entry(&entries) {
            self.error = Some(InstallError::PayloadMissing);
            self.state = InstallState::Failed;
            return Err(InstallError::PayloadMissing);
        }
        self.payload_paths = payload_file_paths(&entries);
        self.manifest = Some(m);
        self.state = InstallState::ManifestParsed;
        Ok(entries)
    }

    /// Moves past the confirmation gate: straight to the dependency
    /// check in skip-confirmation mode, else to the prompt.
    pub fn step_confirm_gate(&mut self)
        requires
            old(self).wf(),
            old(self).state == InstallState::ManifestParsed,
        ensures
            final(self).wf(),
            old(self).skip_confirmation ==> final(self).state == InstallState::DependencyCheck,
            !old(self).skip_confirmation ==> final(self).state
                == InstallState::AwaitingConfirmation,
            final(self).manifest == old(self).manifest,
            final(self).payload_paths == old(self).payload_paths,
            final(self).skip_confirmation == old(self).skip_confirmation,
            final(self).hash == old(self).hash,
    {
        if self.skip_confirmation {
            self.state = InstallState::DependencyCheck;
        } else {
            self.state = InstallState::AwaitingConfirmation;
        }
    }

    /// Applies the user's answer to the confirmation prompt.
    pub fn confirm(&mut self, yes: bool)
        requires
            old(self).wf(),
            old(self).state == InstallState::AwaitingConfirmation,
        ensures
            final(self).wf(),
            yes ==> final(self).state == InstallState::DependencyCheck,
            !yes ==> final(self).state == InstallState::Failed && final(self).error == Some(
                InstallError::Declined,
            ),
            final(self).manifest == old(self).manifest,
            final(self).payload_paths == old(self).payload_paths,
            final(self).hash == old(self).hash,
    {
        if yes {
            self.state = InstallState::DependencyCheck;
        } else {
            self.error = Some(InstallError::Declined);
            self.state = InstallState::Failed;
        }
    }

    /// The idempotence short-circuit: when any version of this package
    /// is already installed, the transaction is Done at once and asks
    /// for no further work — no hook, no file, no record is touched.
    pub fn step_dependency_check(&mut self, db: &LocalPackageDb) -> (r: bool)
        requires
            old(self).wf(),
            old(self).state == InstallState::DependencyCheck,
        ensures
            final(self).wf(),
            final(self).manifest == old(self).manifest,
            final(self).payload_paths == old(self).payload_paths,
            final(self).hash == old(self).hash,
            old(self).manifest matches Some(m) ==> r == has_name(db@, m.name@),
            r ==> final(self).state == InstallState::Done,
            !r ==> final(self).state == InstallState::ResolvingDependencies && final(self).deps_handled == 0 && final(self).pending is None,
    {
        let m = self.manifest.as_ref().unwrap();
        if db.check_exist_pkg(m.name.as_str()) {
            self.state = InstallState::Done;
            true
        } else {
            self.deps_handled = 0;
            self.pending = None;
            self.state = InstallState::ResolvingDependencies;
            false
        }
    }

    /// Takes up the next dependency, in manifest order: done when all
    /// are handled (the hook stage is then next), skipped when already
    /// installed, otherwise parsed and left pending for the repository
    /// lookup. An unparsable constraint is fatal.
    pub fn resolve_next(&mut self, db: &LocalPackageDb) -> (r: Result<ResolveStep, InstallError>)
        requires
            old(self).wf(),
            old(self).state == InstallState::ResolvingDependencies,
            old(self).pending is None,
        ensures
            final(self).wf(),
            final(self).manifest == old(self).manifest,
            final(self).payload_paths == old(self).payload_paths,
            final(self).hash == old(self).hash,
            old(self).manifest matches Some(m) ==> {
                &&& r == Ok::<ResolveStep, InstallError>(ResolveStep::AllResolved) <==> old(self).deps_handled == m.depens@.len()
                &&& r == Ok::<ResolveStep, InstallError>(ResolveStep::AllResolved) ==> final(self).state == InstallState::RunningInstallHook
                &&& (old(self).deps_handled < m.depens@.len() && !parse_ok(
                    m.depens@[old(self).deps_handled as int]@,
                )) <==> r == Err::<ResolveStep, InstallError>(
                    InstallError::DependencyParseFailed(
                        parse_err(m.depens@[old(self).deps_handled as int]@),
                    ),
                )
                &&& r is Err ==> final(self).state == InstallState::Failed
                &&& (old(self).deps_handled < m.depens@.len() && parse_ok(
                    m.depens@[old(self).deps_handled as int]@,
                ) && has_name(db@, spec_name(m.depens@[old(self).deps_handled as int]@))) <==> r
                    == Ok::<ResolveStep, InstallError>(ResolveStep::DepAlreadyInstalled)
                &&& r == Ok::<ResolveStep, InstallError>(ResolveStep::DepAlreadyInstalled) ==> final(self).state == InstallState::ResolvingDependencies && final(self).deps_handled == old(self).deps_handled + 1 && final(self).pending is None
                &&& r == Ok::<ResolveStep, InstallError>(ResolveStep::NeedLookup) ==> {
                    &&& final(self).state == InstallState::ResolvingDependencies
                    &&& final(self).deps_handled == old(self).deps_handled
                    &&& final(self).pending matches Some(q)
                    &&& q.name@ == spec_name(m.depens@[old(self).deps_handled as int]@)
                    &&& q.comparison_operator@ == spec_op(
                        m.depens@[old(self).deps_handled as int]@,
                    )
                    &&& q.version@ == spec_ver(m.depens@[old(self).deps_handled as int]@)
                    &&& !has_name(db@, q.name@)
                }
            },
    {
        let m = self.manifest.as_ref().unwrap();
        let nd = m.depens.len();
        if self.deps_handled >= nd {
            self.state = InstallState::RunningInstallHook;
            return Ok(ResolveStep::AllResolved);
        }
        let q = match PackageQuery::parse(m.depens[self.deps_handled].as_str()) {
            Ok(q) => q,
            Err(e) => {
                self.error = Some(InstallError::DependencyParseFailed(e));
                self.state = InstallState::Failed;
                return Err(InstallError::DependencyParseFailed(e));
            },
        };
        if db.check_exist_pkg(q.name.as_str()) {
            self.deps_handled = self.deps_handled + 1;
            return Ok(ResolveStep::DepAlreadyInstalled);
        }
        self.pending = Some(q);
        Ok(ResolveStep::NeedLookup)
    }

    /// Queries one repository's fetched index for the pending
    /// dependency: the highest version that satisfies the constraint.
    /// The driver tries the repositories in configuration order and
    /// stops at the first that returns a row.
    pub fn lookup_in_index(&self, rows: &Vec<DbPackageEntry>) -> (r: Option<DbPackageEntry>)
        requires
            self.wf(),
            self.state == InstallState::ResolvingDependencies,
            self.pending is Some,
        ensures
            self.pending matches Some(q) ==> {
                &&& r is Some <==> exists|i: int|
                    0 <= i < rows@.len() && crate::repo::constraint_match(
                        #[trigger] rows@[i]@,
                        q.name@,
                        q.comparison_operator@,
                        q.version@,
                    )
                &&& r matches Some(e) ==> crate::repo::constraint_match(
                    e@,
                    q.name@,
                    q.comparison_operator@,
                    q.version@,
                ) && (exists|i: int| 0 <= i < rows@.len() && #[trigger] rows@[i]@ == e@) && (forall|
                    j: int,
                |
                    0 <= j < rows@.len() && crate::repo::constraint_match(
                        #[trigger] rows@[j]@,
                        q.name@,
                        q.comparison_operator@,
                        q.version@,
                    ) ==> !version_gt(rows@[j]@.1, e.version@))
            },
    {
        let q = self.pending.as_ref().unwrap();
        let r = crate::repo::find_package_by_version(
            rows,
            q.name.as_str(),
            q.version.as_str(),
            q.comparison_operator.as_str(),
        );
        match r {
            Ok(o) => o,
            Err(_) => None,
        }
    }

    /// The driver has fully installed the pending dependency (its own
    /// transaction reached Done); this engine moves to the next one.
    pub fn dep_installed(&mut self)
        requires
            old(self).wf(),
            old(self).state == InstallState::ResolvingDependencies,
            old(self).pending is Some,
        ensures
            final(self).wf(),
            final(self).state == InstallState::ResolvingDependencies,
            final(self).deps_handled == old(self).deps_handled + 1,
            final(self).pending is None,
            final(self).manifest == old(self).manifest,
            final(self).payload_paths == old(self).payload_paths,
            final(self).hash == old(self).hash,
    {
        let nd = self.manifest.as_ref().unwrap().depens.len();
        proof {
            assert(self.deps_handled < nd);
        }
        self.deps_handled = self.deps_handled + 1;
        self.pending = None;
    }

    /// No repository satisfied the pending constraint: the whole
    /// transaction fails, not retried.
    pub fn dep_not_found(&mut self) -> (r: InstallError)
        requires
            old(self).wf(),
            old(self).state == InstallState::ResolvingDependencies,
        ensures
            final(self).wf(),
            final(self).state == InstallState::Failed,
            final(self).error == Some(InstallError::DependencyNotFound),
            r == InstallError::DependencyNotFound,
    {
        self.error = Some(InstallError::DependencyNotFound);
        self.state = InstallState::Failed;
        InstallError::DependencyNotFound
    }

    /// The install hook has run (the driver passes its exit state).
    /// Hook failure is advisory in this design: the transaction goes on
    /// to materialize files either way.
    pub fn hook_done(&mut self, success: bool)
        requires
            old(self).wf(),
            old(self).state == InstallState::RunningInstallHook,
        ensures
            final(self).wf(),
            final(self).state == InstallState::MaterializingFiles,
            final(self).manifest == old(self).manifest,
            final(self).payload_paths == old(self).payload_paths,
            final(self).hash == old(self).hash,
            final(self).deps_handled == old(self).deps_handled,
    {
        self.state = InstallState::MaterializingFiles;
    }

    /// The driver has copied the payload into the target root (or
    /// failed to); only success reaches the commit stage.
    pub fn materialize_done(&mut self, ok: bool)
        requires
            old(self).wf(),
            old(self).state == InstallState::MaterializingFiles,
        ensures
            final(self).wf(),
            ok ==> final(self).state == InstallState::RegisteringPackage,
            !ok ==> final(self).state == InstallState::Failed && final(self).error == Some(
                InstallError::MaterializeFailed,
            ),
            final(self).manifest == old(self).manifest,
            final(self).payload_paths == old(self).payload_paths,
            final(self).hash == old(self).hash,
            final(self).deps_handled == old(self).deps_handled,
    {
        if ok {
            self.state = InstallState::RegisteringPackage;
        } else {
            self.error = Some(InstallError::MaterializeFailed);
            self.state = InstallState::Failed;
        }
    }

    /// The permanent install directory of this package.
    pub fn install_dir(&self) -> (r: String)
        requires
            self.manifest is Some,
        ensures
            self.manifest matches Some(m) ==> r@ == spec_install_dir(m.name@, m.version@),
    {
        let m = self.manifest.as_ref().unwrap();
        let base: &str = "/var/lib/konpac/packages/";
        let dash: &str = "-";
        proof {
            reveal_strlit("/var/lib/konpac/packages/");
            reveal_strlit("-");
            assert(dash@ =~= seq!['-']);
        }
        base.to_owned().concat(m.name.as_str()).concat(dash).concat(m.version.as_str())
    }

    /// The commit point: records the file manifest and the package row.
    /// Before this, no persistent record claims the package installed.
    /// Returns the file-manifest text for the driver to persist beside
    /// the install directory.
    pub fn step_register(&mut self, db: &mut LocalPackageDb) -> (r: String)
        requires
            old(self).wf(),
            old(self).state == InstallState::RegisteringPackage,
            old(db).wf(),
        ensures
            final(self).wf(),
            final(self).state == InstallState::Done,
            final(self).manifest == old(self).manifest,
            final(self).payload_paths == old(self).payload_paths,
            final(db).wf(),
            r@ == crate::db::spec_render_lines(strings_view(old(self).payload_paths@)),
            old(self).manifest matches Some(m) ==> {
                &&& final(db)@.len() == old(db)@.len() + (if has_key(old(db)@, m.name@, m.version@) {
                    0int
                } else {
                    1int
                })
                &&& (forall|j: int|
                    0 <= j < old(db)@.len() && !(#[trigger] old(db)@[j].0 == m.name@ && old(db)@[j].1 == m.version@) ==> final(db)@[j] == old(db)@[j])
                &&& (forall|j: int|
                    0 <= j < old(db)@.len() && #[trigger] old(db)@[j].0 == m.name@ && old(db)@[j].1
                        == m.version@ ==> final(db)@[j] == (
                    m.name@,
                    m.version@,
                    spec_install_dir(m.name@, m.version@),
                ))
                &&& (!has_key(old(db)@, m.name@, m.version@) ==> final(db)@[old(db)@.len() as int]
                    == (m.name@, m.version@, spec_install_dir(m.name@, m.version@)))
            },
    {
        let dir = self.install_dir();
        let m = self.manifest.as_ref().unwrap();
        db.add_package(m, dir.as_str());
        let listing = crate::db::render_file_manifest(&self.payload_paths);
        self.state = InstallState::Done;
        listing
    }
}

/// Dependencies come strictly before the hook: whenever an install
/// transaction is at its hook stage — or past it, materializing or
/// registering — every dependency the manifest declares has been
/// handled (found installed, or installed to completion by the driver).
pub proof fn lemma_deps_handled_before_hook(e: InstallEngine)
    requires
        e.wf(),
        e.state == InstallState::RunningInstallHook || e.state == InstallState::MaterializingFiles
            || e.state == InstallState::RegisteringPackage,
    ensures
        e.manifest matches Some(m) && e.deps_handled == m.depens@.len(),
{
}

} // verus!
