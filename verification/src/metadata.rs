//! The protocol-level metadata projection of a remote inode.

use vstd::prelude::*;
use crate::api::InodeResource;

verus! {

/// What the protocol layer sees of an inode: length, file/directory flag,
/// modification time as epoch seconds, and the owning user as both uid and
/// gid (there is no separate group concept).
#[derive(Clone, Copy, Debug, PartialEq, Eq, Structural)]
pub struct InodeMetaData {
    pub len: u64,
    pub is_file: bool,
    pub modified: u64,
    pub gid: u32,
    pub uid: u32,
}

/// The projection of an inode for an owning user: the length is the inode
/// size, an inode is a file exactly when it carries a mime-type, the
/// modification time is its last-updated stamp, and both owner ids are the
/// given one.
pub open spec fn metadata_of(inode: InodeResource, owner_id: u32) -> InodeMetaData {
    InodeMetaData {
        len: inode.size,
        is_file: inode.mime_type is Some,
        modified: inode.last_updated,
        gid: owner_id,
        uid: owner_id,
    }
}

impl InodeMetaData {
    /// Project a remote inode for the given owning user.
    pub fn from(inode: &InodeResource, owner_id: u32) -> (r: InodeMetaData)
        ensures
            r == metadata_of(*inode, owner_id),
    {
        InodeMetaData {
            len: inode.size,
            is_file: inode.mime_type.is_some(),
            modified: inode.last_updated,
            gid: owner_id,
            uid: owner_id,
        }
    }

    pub fn len(&self) -> (r: u64)
        ensures
            r == self.len,
    {
        self.len
    }

    pub fn is_dir(&self) -> (r: bool)
        ensures
            r == !self.is_file,
    {
        !self.is_file
    }

    pub fn is_file(&self) -> (r: bool)
        ensures
            r == self.is_file,
    {
        self.is_file
    }

    /// The remote model has no symbolic links.
    pub fn is_symlink(&self) -> (r: bool)
        ensures
            !r,
    {
        false
    }

    /// Modification time, as seconds since the epoch.
    pub fn modified(&self) -> (r: u64)
        ensures
            r == self.modified,
    {
        self.modified
    }

    pub fn gid(&self) -> (r: u32)
        ensures
            r == self.gid,
    {
        self.gid
    }

    pub fn uid(&self) -> (r: u32)
        ensures
            r == self.uid,
    {
        self.uid
    }
}

} // verus!
