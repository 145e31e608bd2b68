//! The storage adapter: every protocol filesystem operation is translated
//! into a plan of remote calls.  The decisions — which paths are valid,
//! whether the timestamp convention applies, which rename primitives are
//! needed, whether an offset is supported — are made here and verified; the
//! HTTP transport performs the planned calls outside this crate.

use vstd::prelude::*;
use crate::api::{ApiConfig, ContentsResource, InodeResource};
use crate::errors::{FtpError, FtpErrorKind};
use crate::metadata::{metadata_of, InodeMetaData};
use crate::paths::{
    get_parent_and_name, normalize_spec, parent_name_spec, path_ok, validate_and_normalize_path,
};
use crate::timestamp::{rclone_detect_spec, Timestamp};

verus! {

/// The storage adapter for one protocol connection: immutable after
/// construction, holding only the remote configuration.
#[derive(Clone, Debug)]
pub struct FileFighter {
    pub api_config: ApiConfig,
}

impl FileFighter {
    /// Build a fresh adapter for a connection from the shared configuration.
    pub fn new(api_config: ApiConfig) -> (r: FileFighter)
        ensures
            r.api_config == api_config,
    {
        FileFighter { api_config }
    }

    /// The restart capability bit advertised to the protocol engine.  Note
    /// a latent inconsistency: restart is advertised although the transfer
    /// operations reject every non-zero offset.
    pub fn supported_features(&self) -> (r: u32)
        ensures
            r == 1u32,
    {
        1
    }
}

/// What a metadata request turns into: either a modification-time update
/// (the timestamp convention matched) or a plain inode fetch.
#[derive(Clone, Debug)]
pub enum MetadataPlan {
    /// Issue set-last-modified with this timestamp on this path, and map
    /// the returned inode.
    SetLastModified { path: String, timestamp: Timestamp },
    /// Fetch the inode at this normalized path and map it.
    GetInode { path: String },
}

/// Decide what a metadata request on `path` must do: normalize and validate
/// the path; when its first component after the root carries the timestamp
/// convention, plan a modification-time update on the remaining path,
/// otherwise plan a plain inode fetch.
pub fn metadata_plan(path: &str) -> (r: Result<MetadataPlan, FtpError>)
    ensures
        match r {
            Ok(plan) => {
                &&& path_ok(normalize_spec(path@))
                &&& match plan {
                    MetadataPlan::SetLastModified { path: p, timestamp: t } => rclone_detect_spec(
                        normalize_spec(path@),
                    ) == Some((t, p@)),
                    MetadataPlan::GetInode { path: p } => rclone_detect_spec(normalize_spec(path@))
                        is None && p@ == normalize_spec(path@),
                }
            },
            Err(e) => {
                &&& !path_ok(normalize_spec(path@))
                &&& e.kind == FtpErrorKind::FileNameNotAllowedError
                &&& e.message@ == "Path contained relative elements after normalizing"@
            },
        },
{
    let normalized = match validate_and_normalize_path(path) {
        Ok(p) => p,
        Err(e) => {
            return Err(e);
        },
    };
    match crate::timestamp::path_contains_rclone_modification_date(normalized.as_str()) {
        Some(found) => Ok(MetadataPlan::SetLastModified { path: found.1, timestamp: found.0 }),
        None => Ok(MetadataPlan::GetInode { path: normalized }),
    }
}

/// One entry of a directory listing: the child's path and its metadata.
#[derive(Clone, Debug)]
pub struct FileEntry {
    pub path: String,
    pub metadata: InodeMetaData,
}

/// Map a folder listing into protocol entries: one per child inode, each
/// carrying the child's own path but the folder owner's id (not the child's
/// own last-updater), for consistency within one listing.
pub fn list_entries(contents: &ContentsResource) -> (r: Vec<FileEntry>)
    ensures
        r@.len() == contents.inodes@.len(),
        forall|i: int|
            0 <= i < r@.len() ==> r@[i].path@ == contents.inodes@[i].path@ && r@[i].metadata
                == metadata_of(contents.inodes@[i], contents.owner.id),
{
    let mut entries: Vec<FileEntry> = Vec::new();
    let mut k: usize = 0;
    while k < contents.inodes.len()
        invariant
            k <= contents.inodes@.len(),
            entries@.len() == k,
            forall|i: int|
                0 <= i < k ==> entries@[i].path@ == contents.inodes@[i].path@ && entries@[i].metadata
                    == metadata_of(contents.inodes@[i], contents.owner.id),
        decreases contents.inodes@.len() - k,
    {
        let inode = &contents.inodes[k];
        let entry = FileEntry {
            path: inode.path.clone(),
            metadata: InodeMetaData::from(inode, contents.owner.id),
        };
        entries.push(entry);
        k = k + 1;
    }
    entries
}

/// Decide a download: any offset other than zero is rejected up front as
/// unimplemented, before any remote call; otherwise the validated path to
/// stream from is returned.
pub fn get_plan(path: &str, start_pos: u64) -> (r: Result<String, FtpError>)
    ensures
        start_pos != 0 ==> match r {
            Ok(_) => false,
            Err(e) => e.kind == FtpErrorKind::CommandNotImplemented && e.message@
                == "Gets at offset not equal to 0 are not implemented."@,
        },
        start_pos == 0 ==> match r {
            Ok(p) => p@ == normalize_spec(path@) && path_ok(normalize_spec(path@)),
            Err(e) => {
                &&& !path_ok(normalize_spec(path@))
                &&& e.kind == FtpErrorKind::FileNameNotAllowedError
                &&& e.message@ == "Path contained relative elements after normalizing"@
            },
        },
{
    if start_pos != 0 {
        return Err(
            FtpError::new(
                FtpErrorKind::CommandNotImplemented,
                "Gets at offset not equal to 0 are not implemented.",
            ),
        );
    }
    validate_and_normalize_path(path)
}

/// An upload plan: the parent folder and leaf name to stream to, and the
/// full normalized path to re-fetch afterwards for the resulting size.
#[derive(Clone, Debug)]
pub struct PutPlan {
    pub parent_path: String,
    pub name: String,
    pub path: String,
}

/// Decide an upload: any offset other than zero is rejected up front as
/// unimplemented, before any remote call; otherwise the path is validated
/// and split into parent and leaf name.
pub fn put_plan(path: &str, start_pos: u64) -> (r: Result<PutPlan, FtpError>)
    ensures
        start_pos != 0 ==> match r {
            Ok(_) => false,
            Err(e) => e.kind == FtpErrorKind::CommandNotImplemented && e.message@
                == "Puts at offset not equal to 0 are not implemented."@,
        },
        start_pos == 0 ==> match r {
            Ok(p) => {
                &&& path_ok(normalize_spec(path@))
                &&& p.path@ == normalize_spec(path@)
                &&& parent_name_spec(normalize_spec(path@)) == Some((p.parent_path@, p.name@))
            },
            Err(e) => {
                &&& e.kind == FtpErrorKind::FileNameNotAllowedError
                &&& if !path_ok(normalize_spec(path@)) {
                    e.message@ == "Path contained relative elements after normalizing"@
                } else {
                    parent_name_spec(normalize_spec(path@)) is None && e.message@
                        == "Path for creating a directory must contain a parent and child component"@
                }
            },
        },
{
    if start_pos != 0 {
        return Err(
            FtpError::new(
                FtpErrorKind::CommandNotImplemented,
                "Puts at offset not equal to 0 are not implemented.",
            ),
        );
    }
    let normalized = match validate_and_normalize_path(path) {
        Ok(p) => p,
        Err(e) => {
            return Err(e);
        },
    };
    let (parent_path, name) = match get_parent_and_name(normalized.as_str()) {
        Ok(pn) => pn,
        Err(e) => {
            return Err(e);
        },
    };
    Ok(PutPlan { parent_path, name, path: normalized })
}

/// A make-directory plan: the parent folder and the name to create in it.
#[derive(Clone, Debug)]
pub struct MkdPlan {
    pub parent_path: String,
    pub name: String,
}

/// Decide a make-directory request: validate the path and split it into the
/// parent to create in and the new folder's name.
pub fn mkd_plan(path: &str) -> (r: Result<MkdPlan, FtpError>)
    ensures
        match r {
            Ok(p) => {
                &&& path_ok(normalize_spec(path@))
                &&& parent_name_spec(normalize_spec(path@)) == Some((p.parent_path@, p.name@))
            },
            Err(e) => {
                &&& e.kind == FtpErrorKind::FileNameNotAllowedError
                &&& if !path_ok(normalize_spec(path@)) {
                    e.message@ == "Path contained relative elements after normalizing"@
                } else {
                    parent_name_spec(normalize_spec(path@)) is None && e.message@
                        == "Path for creating a directory must contain a parent and child component"@
                }
            },
        },
{
    let normalized = match validate_and_normalize_path(path) {
        Ok(p) => p,
        Err(e) => {
            return Err(e);
        },
    };
    match get_parent_and_name(normalized.as_str()) {
        Ok(pn) => Ok(MkdPlan { parent_path: pn.0, name: pn.1 }),
        Err(e) => Err(e),
    }
}


/// A rename/move plan.  The remote API exposes rename-in-place and move as
/// distinct primitives; only the calls actually needed are planned: a rename
/// exactly when the leaf names differ, a move exactly when the parent
/// directories differ.
#[derive(Clone, Debug)]
pub struct RenamePlan {
    /// The validated source path.
    pub from_path: String,
    /// The parent directory of the validated target path.
    pub to_parent: String,
    /// The leaf name of the validated target path.
    pub to_name: String,
    /// A rename call (to `to_name`) is needed: the leaf names differ.
    pub needs_rename: bool,
    /// A move call (to `to_parent`) is needed: the parents differ.
    pub needs_move: bool,
}

/// Decide a rename request: validate both paths, split both into parent and
/// leaf, and plan a rename exactly when the names differ and a move exactly
/// when the parents differ.
pub fn rename_plan(from: &str, to: &str) -> (r: Result<RenamePlan, FtpError>)
    ensures
        match r {
            Ok(p) => ({
                let nf = normalize_spec(from@);
                let nt = normalize_spec(to@);
                &&& path_ok(nf)
                &&& path_ok(nt)
                &&& parent_name_spec(nf) is Some
                &&& parent_name_spec(nt) is Some
                &&& ({
                    let pnf = parent_name_spec(nf)->0;
                    let pnt = parent_name_spec(nt)->0;
                    &&& p.from_path@ == nf
                    &&& p.to_parent@ == pnt.0
                    &&& p.to_name@ == pnt.1
                    &&& p.needs_rename == (pnf.1 != pnt.1)
                    &&& p.needs_move == (pnf.0 != pnt.0)
                })
            }),
            Err(e) => ({
                let nf = normalize_spec(from@);
                let nt = normalize_spec(to@);
                &&& e.kind == FtpErrorKind::FileNameNotAllowedError
                &&& if !path_ok(nf) || !path_ok(nt) {
                    e.message@ == "Path contained relative elements after normalizing"@
                } else {
                    (parent_name_spec(nf) is None || parent_name_spec(nt) is None) && e.message@
                        == "Path for creating a directory must contain a parent and child component"@
                }
            }),
        },
{
    let from_path = match validate_and_normalize_path(from) {
        Ok(p) => p,
        Err(e) => {
            return Err(e);
        },
    };
    let to_path = match validate_and_normalize_path(to) {
        Ok(p) => p,
        Err(e) => {
            return Err(e);
        },
    };
    let (from_parent, from_name) = match get_parent_and_name(from_path.as_str()) {
        Ok(pn) => pn,
        Err(e) => {
            return Err(e);
        },
    };
    let (to_parent, to_name) = match get_parent_and_name(to_path.as_str()) {
        Ok(pn) => pn,
        Err(e) => {
            return Err(e);
        },
    };
    let needs_rename = !from_name.eq(&to_name);
    let needs_move = !from_parent.eq(&to_parent);
    Ok(RenamePlan { from_path, to_parent, to_name, needs_rename, needs_move })
}

/// After a planned rename was issued (or skipped), decide the move call:
/// none when the parents already agree; otherwise the source is the path
/// the rename call returned — the remote service may itself have relocated
/// the inode — or the original validated path when no rename was needed.
pub fn move_source_path(plan: &RenamePlan, renamed_path: Option<String>) -> (r: Option<String>)
    requires
        renamed_path is Some <==> plan.needs_rename,
    ensures
        match r {
            Some(p) => plan.needs_move && p@ == if plan.needs_rename {
                renamed_path->0@
            } else {
                plan.from_path@
            },
            None => !plan.needs_move,
        },
{
    if !plan.needs_move {
        return None;
    }
    match renamed_path {
        Some(p) => Some(p),
        None => Some(plan.from_path.clone()),
    }
}

/// Check a change-directory target once its inode was fetched: it succeeds
/// exactly when the mapped metadata reports a directory, that is when the
/// inode carries no mime-type.
pub fn cwd_check(inode: &InodeResource, owner_id: u32) -> (r: Result<(), FtpError>)
    ensures
        match r {
            Ok(_) => inode.mime_type is None,
            Err(e) => {
                &&& inode.mime_type is Some
                &&& e.kind == FtpErrorKind::PermanentDirectoryNotAvailable
                &&& e.message@ == "Path didn't point to a directory."@
            },
        },
{
    let inode_metadata = InodeMetaData::from(inode, owner_id);
    if inode_metadata.is_dir() {
        Ok(())
    } else {
        Err(
            FtpError::new(
                FtpErrorKind::PermanentDirectoryNotAvailable,
                "Path didn't point to a directory.",
            ),
        )
    }
}

} // verus!
