//! What the host is told about the files of a repository.
//!
//! A mounted repository answers the host's questions about attributes and
//! about the file system as a whole. The answers are worked out here; the
//! mount itself is the caller's work.

use vstd::prelude::*;
use crate::catalog::Statistics;
use crate::common::{CvmfsError, CvmfsResult};
use crate::directory_entry::DirectoryEntry;
use crate::time::{calendar_has_seconds, checked_timestamp, seconds_in_calendar};

verus! {

/// For how many seconds the host may keep the attributes of a file.
pub const TTL_SECONDS: u64 = 1;

/// The size of a block in bytes.
pub const BLOCK_SIZE: u32 = 512;

/// The longest name of a file.
pub const NAME_LENGTH: u32 = 255;

/// The kinds of file that the host is told of.
#[derive(Debug, Clone, Copy, PartialEq, Eq, Structural)]
pub enum FileKind {
    Directory,
    Symlink,
    RegularFile,
}

/// The kind of file that flags stand for: a directory before a symbolic
/// link, and a regular file for everything else.
pub open spec fn kind_of(flags: u32) -> FileKind {
    if flags & 1 != 0 {
        FileKind::Directory
    } else if flags & 8 != 0 {
        FileKind::Symlink
    } else {
        FileKind::RegularFile
    }
}

/// The attributes of a file.
#[derive(Debug, Clone, Copy, PartialEq, Eq, Structural)]
pub struct FileAttributes {
    /// Size in bytes.
    pub size: u64,
    /// Size in blocks of 512 bytes.
    pub blocks: u64,
    /// Time of the last modification, which also stands for the times of
    /// access, change and creation, in seconds since the epoch.
    pub mtime: i64,
    /// Kind of file.
    pub kind: FileKind,
    /// Permissions.
    pub perm: u16,
    /// Number of hard links.
    pub nlink: u32,
    /// Owner.
    pub uid: u32,
    /// Group.
    pub gid: u32,
    /// Device.
    pub rdev: u32,
    /// The flags of the entry.
    pub flags: u32,
}

/// What the host is told about the file system.
#[derive(Debug, Clone, Copy, PartialEq, Eq, Structural)]
pub struct FileSystemStatistics {
    pub blocks: u64,
    pub bfree: u64,
    pub bavail: u64,
    pub files: u64,
    pub ffree: u64,
    pub bsize: u32,
    pub namelen: u32,
    pub frsize: u32,
}

/// The attributes that an entry has towards the host: one block more than
/// its size fills, the low twelve bits of its mode as permissions, and no
/// owner, group or links.
pub open spec fn attributes_of(entry: DirectoryEntry) -> FileAttributes {
    FileAttributes {
        size: entry.size,
        blocks: (1 + entry.size / 512) as u64,
        mtime: entry.mtime,
        kind: kind_of(entry.flags),
        perm: entry.mode & 0o7777,
        nlink: 0,
        uid: 0,
        gid: 0,
        rdev: 1,
        flags: entry.flags,
    }
}

/// What the counters of a repository say of it as a file system: it is
/// full, since nothing can be written, and holds the regular files.
pub open spec fn statistics_of(statistics: Statistics) -> FileSystemStatistics {
    FileSystemStatistics {
        blocks: (1 + statistics.file_size / 512) as u64,
        bfree: 0,
        bavail: 0,
        files: statistics.regular,
        ffree: 0,
        bsize: BLOCK_SIZE,
        namelen: NAME_LENGTH,
        frsize: BLOCK_SIZE,
    }
}

/// The kind of file that an entry is towards the host.
pub fn map_dirent_type_to_fs_kind(dirent: &DirectoryEntry) -> (kind: FileKind)
    ensures
        kind == kind_of(dirent.flags),
{
    if dirent.is_directory() {
        FileKind::Directory
    } else if dirent.is_symlink() {
        FileKind::Symlink
    } else {
        FileKind::RegularFile
    }
}

/// The attributes of an entry. An entry whose time of modification the
/// calendar has no date for has an invalid timestamp.
pub fn getattr(dirent: &DirectoryEntry) -> (attributes: CvmfsResult<FileAttributes>)
    ensures
        attributes == if seconds_in_calendar(dirent.mtime) {
            Ok::<_, CvmfsError>(attributes_of(*dirent))
        } else {
            Err::<FileAttributes, _>(CvmfsError::InvalidTimestamp)
        },
{
    let in_calendar = calendar_has_seconds(dirent.mtime);
    let mtime = match checked_timestamp(Some(dirent.mtime), in_calendar) {
        Ok(time) => time,
        Err(e) => {
            return Err(e);
        },
    };
    Ok(
        FileAttributes {
            size: dirent.size,
            blocks: 1 + dirent.size / 512,
            mtime,
            kind: map_dirent_type_to_fs_kind(dirent),
            perm: dirent.mode & 0o7777,
            nlink: 0,
            uid: 0,
            gid: 0,
            rdev: 1,
            flags: dirent.flags,
        },
    )
}

/// What the host is told about the file system.
pub fn statfs(statistics: &Statistics) -> (answer: FileSystemStatistics)
    ensures
        answer == statistics_of(*statistics),
{
    FileSystemStatistics {
        blocks: 1 + statistics.file_size / 512,
        bfree: 0,
        bavail: 0,
        files: statistics.regular,
        ffree: 0,
        bsize: BLOCK_SIZE,
        namelen: NAME_LENGTH,
        frsize: BLOCK_SIZE,
    }
}

/// Where a symbolic link points. An entry that is no link has no target,
/// and a link without target is not found.
pub fn readlink(dirent: &DirectoryEntry) -> (target: Option<CvmfsResult<&str>>)
    ensures
        dirent.flags & 8 == 0 ==> target is None,
        dirent.flags & 8 != 0 ==> match dirent.symlink {
            Some(link) => target matches Some(Ok(t)) && t@ == link@,
            None => target == Some(Err::<&str, _>(CvmfsError::FileNotFound)),
        },
{
    if !dirent.is_symlink() {
        return None;
    }
    match &dirent.symlink {
        Some(link) => Some(Ok(link.as_str())),
        None => Some(Err(CvmfsError::FileNotFound)),
    }
}

} // verus!
