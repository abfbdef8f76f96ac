//! The remove transaction, as a state machine.
//!
//! One engine drives one removal through `LookupRecord ->
//! RunningRemoveHook -> DeletingTrackedFiles -> DeletingRecord ->
//! DeletingPackageDir -> Done`, with `Failed` reachable from any stage.
//! The database record goes before the package directory on purpose: if
//! directory deletion then fails partway, the database no longer claims
//! the package installed — an orphan directory is the safer
//! inconsistency. The hook runs before anything under the package
//! directory is deleted, since it may need those files.
use vstd::prelude::*;
use vstd::string::*;
use crate::chars::strings_view;
use crate::db::{
    has_name, remove_name, lemma_remove_name_append, lemma_remove_name_noop, parse_file_manifest,
    spec_parse_lines, LocalPackageDb,
};

verus! {

/// The stages of one remove transaction.
#[derive(Debug, Clone, Copy, PartialEq, Eq, Structural)]
pub enum RemoveState {
    LookupRecord,
    RunningRemoveHook,
    DeletingTrackedFiles,
    DeletingRecord,
    DeletingPackageDir,
    Done,
    Failed,
}

/// Why a remove transaction failed.
#[derive(Debug, Clone, Copy, PartialEq, Eq, Structural)]
pub enum RemoveError {
    /// No database record names the package.
    PackageNotInstalled,
    /// A record exists but its install directory does not.
    PackageDirMissing,
    /// Deleting a tracked file failed.
    FileDeleteFailed,
    /// The record vanished between lookup and deletion.
    RecordMissing,
    /// Deleting the package directory failed.
    DirDeleteFailed,
}

/// One remove transaction.
pub struct RemoveEngine {
    pub state: RemoveState,
    pub package_name: String,
    pub package_dir: Option<String>,
    pub error: Option<RemoveError>,
}

impl RemoveEngine {
    /// Past the lookup the install directory is known; a failure names
    /// its reason.
    pub open spec fn wf(self) -> bool {
        &&& (match self.state {
            RemoveState::LookupRecord => true,
            RemoveState::Failed => self.error is Some,
            _ => self.package_dir is Some,
        })
    }

    /// A fresh engine for removing `package_name`.
    pub fn new(package_name: String) -> (r: RemoveEngine)
        ensures
            r.wf(),
            r.state == RemoveState::LookupRecord,
            r.package_name@ == package_name@,
    {
        RemoveEngine { state: RemoveState::LookupRecord, package_name, package_dir: None, error: None }
    }

    /// Looks the package up. With no record the transaction fails as
    /// not-installed; with a record whose directory is gone (the driver
    /// checks the disk) it fails as dir-missing — both reported, never
    /// ignored. Otherwise the recorded install directory is kept and
    /// the hook stage is next.
    pub fn step_lookup(&mut self, db: &LocalPackageDb, dir_exists: bool) -> (r: Result<
        String,
        RemoveError,
    >)
        requires
            old(self).wf(),
            old(self).state == RemoveState::LookupRecord,
        ensures
            final(self).wf(),
            final(self).package_name == old(self).package_name,
            !has_name(db@, old(self).package_name@) ==> r == Err::<String, RemoveError>(
                RemoveError::PackageNotInstalled,
            ) && final(self).state == RemoveState::Failed && final(self).error == Some(
                RemoveError::PackageNotInstalled,
            ),
            has_name(db@, old(self).package_name@) && !dir_exists ==> r == Err::<
                String,
                RemoveError,
            >(RemoveError::PackageDirMissing) && final(self).state == RemoveState::Failed && final(self).error == Some(RemoveError::PackageDirMissing),
            has_name(db@, old(self).package_name@) && dir_exists ==> {
                &&& final(self).state == RemoveState::RunningRemoveHook
                &&& r matches Ok(p)
                &&& final(self).package_dir matches Some(d) && d@ == p@
                &&& exists|i: int|
                    0 <= i < db@.len() && (#[trigger] db@[i]).0 == old(self).package_name@
                        && db@[i].2 == p@
            },
    {
        match db.get_package_dir(self.package_name.as_str()) {
            None => {
                self.error = Some(RemoveError::PackageNotInstalled);
                self.state = RemoveState::Failed;
                Err(RemoveError::PackageNotInstalled)
            },
            Some(dir) => {
                if !dir_exists {
                    self.error = Some(RemoveError::PackageDirMissing);
                    self.state = RemoveState::Failed;
                    Err(RemoveError::PackageDirMissing)
                } else {
                    let out = dir.clone();
                    self.package_dir = Some(dir);
                    self.state = RemoveState::RunningRemoveHook;
                    Ok(out)
                }
            },
        }
    }

    /// The remove hook has run; its failure is advisory, as at install.
    pub fn hook_done(&mut self, success: bool)
        requires
            old(self).wf(),
            old(self).state == RemoveState::RunningRemoveHook,
        ensures
            final(self).wf(),
            final(self).state == RemoveState::DeletingTrackedFiles,
            final(self).package_name == old(self).package_name,
            final(self).package_dir == old(self).package_dir,
    {
        self.state = RemoveState::DeletingTrackedFiles;
    }

    /// The exact paths to delete: the ones listed in the package's file
    /// manifest, each on its own line — and no others. A missing file
    /// manifest means nothing is tracked, so nothing may be deleted.
    pub fn files_to_delete(&self, list_text: Option<&str>) -> (r: Vec<String>)
        requires
            self.wf(),
            self.state == RemoveState::DeletingTrackedFiles,
        ensures
            list_text matches Some(t) ==> strings_view(r@) == spec_parse_lines(t@),
            list_text is None ==> r@.len() == 0,
    {
        match list_text {
            Some(t) => parse_file_manifest(t),
            None => Vec::new(),
        }
    }

    /// The driver has deleted the tracked files — skipping any already
    /// gone, which is no error — or failed on one of them.
    pub fn files_deleted(&mut self, ok: bool)
        requires
            old(self).wf(),
            old(self).state == RemoveState::DeletingTrackedFiles,
        ensures
            final(self).wf(),
            ok ==> final(self).state == RemoveState::DeletingRecord,
            !ok ==> final(self).state == RemoveState::Failed && final(self).error == Some(
                RemoveError::FileDeleteFailed,
            ),
            final(self).package_name == old(self).package_name,
            final(self).package_dir == old(self).package_dir,
    {
        if ok {
            self.state = RemoveState::DeletingRecord;
        } else {
            self.error = Some(RemoveError::FileDeleteFailed);
            self.state = RemoveState::Failed;
        }
    }

    /// Deletes the package's database records — every version of the
    /// name — before the directory goes.
    pub fn step_delete_record(&mut self, db: &mut LocalPackageDb) -> (r: Result<(), RemoveError>)
        requires
            old(self).wf(),
            old(self).state == RemoveState::DeletingRecord,
            old(db).wf(),
        ensures
            final(self).wf(),
            final(db).wf(),
            final(db)@ == remove_name(old(db)@, old(self).package_name@),
            r is Ok <==> has_name(old(db)@, old(self).package_name@),
            r is Ok ==> final(self).state == RemoveState::DeletingPackageDir,
            r is Err ==> final(self).state == RemoveState::Failed && final(self).error == Some(
                RemoveError::RecordMissing,
            ) && r == Err::<(), RemoveError>(RemoveError::RecordMissing),
            final(self).package_name == old(self).package_name,
            final(self).package_dir == old(self).package_dir,
    {
        match db.del_package(self.package_name.as_str()) {
            Ok(()) => {
                self.state = RemoveState::DeletingPackageDir;
                Ok(())
            },
            Err(_) => {
                self.error = Some(RemoveError::RecordMissing);
                self.state = RemoveState::Failed;
                Err(RemoveError::RecordMissing)
            },
        }
    }

    /// The driver has deleted the package directory, or failed to; by
    /// now the database no longer claims the package installed either
    /// way.
    pub fn dir_deleted(&mut self, ok: bool)
        requires
            old(self).wf(),
            old(self).state == RemoveState::DeletingPackageDir,
        ensures
            final(self).wf(),
            ok ==> final(self).state == RemoveState::Done,
            !ok ==> final(self).state == RemoveState::Failed && final(self).error == Some(
                RemoveError::DirDeleteFailed,
            ),
            final(self).package_name == old(self).package_name,
    {
        if ok {
            self.state = RemoveState::Done;
        } else {
            self.error = Some(RemoveError::DirDeleteFailed);
            self.state = RemoveState::Failed;
        }
    }
}

/// Installing and then removing a package returns the target root's
/// tracked-path set to its pre-install state: materializing adds
/// exactly the payload paths, removal deletes exactly those paths, and
/// what was there before — disjoint from the package's paths — remains.
pub proof fn lemma_tracked_paths_round_trip(root: Set<Seq<char>>, files: Set<Seq<char>>)
    requires
        root.disjoint(files),
    ensures
        root.union(files).difference(files) == root,
{
    assert(root.union(files).difference(files) =~= root);
}

/// Installing and then removing a package leaves no dangling database
/// record: registering a package not previously present appends its
/// row, and deleting its name afterwards restores the records exactly.
pub proof fn lemma_db_round_trip(
    recs: Seq<(Seq<char>, Seq<char>, Seq<char>)>,
    name: Seq<char>,
    version: Seq<char>,
    path: Seq<char>,
)
    requires
        !has_name(recs, name),
    ensures
        remove_name(recs.push((name, version, path)), name) == recs,
{
    lemma_remove_name_append(recs, (name, version, path), name);
    assert forall|i: int| 0 <= i < recs.len() implies #[trigger] recs[i].0 != name by {
        if recs[i].0 == name {
            assert(has_name(recs, name));
        }
    }
    lemma_remove_name_noop(recs, name);
    assert(remove_name(recs, name) + Seq::<(Seq<char>, Seq<char>, Seq<char>)>::empty() =~= recs);
}

} // verus!
