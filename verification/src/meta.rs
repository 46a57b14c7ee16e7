//! What the shell knows of a file: its type and the fields of its metadata
//! that `ls` shows.
use vstd::prelude::*;

verus! {

/// The type of a file, as `symlink_metadata` reports it.
#[derive(Debug, Clone, Copy, PartialEq, Eq, Structural)]
pub enum FileKind {
    Directory,
    Symlink,
    CharDevice,
    BlockDevice,
    Fifo,
    Socket,
    Regular,
    Unknown,
}

/// The metadata fields the shell reads.
#[derive(Debug, Clone, Copy, PartialEq, Eq, Structural)]
pub struct FileInfo {
    pub kind: FileKind,
    /// `st_mode`: type and permission bits.
    pub mode: u32,
    pub nlink: u64,
    pub uid: u32,
    pub gid: u32,
    /// Size in bytes.
    pub size: u64,
    /// Device number, for character and block devices.
    pub rdev: u64,
    /// Allocated 512-byte blocks.
    pub blocks: u64,
    /// Modification time, in seconds since the epoch.
    pub mtime: i64,
}

/// Some execute bit (owner, group or other) is set.
pub open spec fn any_exec_bit(mode: u32) -> bool {
    mode & 0o111 != 0
}

/// A regular file that someone may execute.
pub open spec fn is_executable(kind: FileKind, mode: u32) -> bool {
    kind == FileKind::Regular && any_exec_bit(mode)
}

/// Whether a regular file has an execute bit set.
pub fn is_executable_exec(kind: FileKind, mode: u32) -> (res: bool)
    ensures
        res == is_executable(kind, mode),
{
    kind == FileKind::Regular && (mode & 0o111 != 0)
}

/// Law: a file is executable exactly when it is a regular file and its
/// owner, its group or anyone else may execute it.
pub proof fn law_executable_bits(kind: FileKind, mode: u32)
    ensures
        is_executable(kind, mode) <==> (kind == FileKind::Regular && (mode & 0o100 != 0 || mode & 0o010 != 0 || mode
            & 0o001 != 0)),
{
    assert((mode & 0o111 != 0) <==> (mode & 0o100 != 0 || mode & 0o010 != 0 || mode & 0o001 != 0)) by (bit_vector);
}

} // verus!
