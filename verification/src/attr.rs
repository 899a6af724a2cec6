//! File kinds and the attribute block that every reply carries.

use vstd::prelude::*;
use crate::cache::FileNode;

verus! {

/// The kind of a file, as a file system reports it.
#[derive(Clone, Copy, Debug, PartialEq, Eq, Hash, Structural)]
pub enum FileType {
    NamedPipe,
    CharDevice,
    BlockDevice,
    Directory,
    RegularFile,
    Symlink,
    Socket,
}

/// The attributes of a file. Times are seconds since the epoch.
#[derive(Clone, Copy, Debug, PartialEq, Eq, Structural)]
pub struct FileAttr {
    pub ino: u64,
    pub size: u64,
    pub blocks: u64,
    pub atime: u64,
    pub mtime: u64,
    pub ctime: u64,
    pub crtime: u64,
    pub kind: FileType,
    pub perm: u16,
    pub nlink: u32,
    pub uid: u32,
    pub gid: u32,
    pub rdev: u32,
    pub blksize: u32,
    pub flags: u32,
}

/// The one attribute block that is served: nothing of it is true of the file
/// but the inode and the kind.
pub open spec fn fake_fattr(ino: u64, kind: FileType) -> FileAttr {
    FileAttr {
        ino,
        size: 1,
        blocks: 1,
        atime: 0,
        mtime: 0,
        ctime: 0,
        crtime: 0,
        kind,
        perm: 777,
        nlink: 1,
        uid: 0,
        gid: 0,
        rdev: 0,
        blksize: 1,
        flags: 0,
    }
}

/// The attribute block that is served for `ino` as a file of kind `kind`.
pub fn build_fake_fattr(ino: u64, kind: FileType) -> (attr: FileAttr)
    ensures
        attr == fake_fattr(ino, kind),
{
    FileAttr {
        ino,
        size: 1,
        blocks: 1,
        atime: 0,
        mtime: 0,
        ctime: 0,
        crtime: 0,
        kind,
        perm: 777,
        nlink: 1,
        uid: 0,
        gid: 0,
        rdev: 0,
        blksize: 1,
        flags: 0,
    }
}

/// Whether the node is a file or a link: what a link can stand for.
pub open spec fn file_or_symlink<T>(n: FileNode<T>) -> bool {
    !(n is Directory)
}

/// Whether the node is a directory. A link is none, whatever it leads to:
/// every node is of one sort or of the other.
pub open spec fn dir_like<T>(n: FileNode<T>) -> bool {
    n is Directory
}

/// The kind under which a node is served. Contents are never served, so a
/// regular file is a link as well; a directory stays one.
pub open spec fn served_kind<T>(n: FileNode<T>) -> FileType {
    if n is Directory {
        FileType::Directory
    } else {
        FileType::Symlink
    }
}

/// Whether the node is a file or a link.
pub fn is_file_or_symlink<T>(n: &FileNode<T>) -> (r: bool)
    ensures
        r == file_or_symlink(*n),
{
    match n {
        FileNode::Regular { .. } => true,
        FileNode::Symlink { .. } => true,
        FileNode::Directory { .. } => false,
    }
}

/// Whether the node is a directory. A link is none.
pub fn is_dir<T>(n: &FileNode<T>) -> (r: bool)
    ensures
        r == dir_like(*n),
        r != file_or_symlink(*n),
{
    match n {
        FileNode::Regular { .. } => false,
        FileNode::Symlink { .. } => false,
        FileNode::Directory { .. } => true,
    }
}

impl<T> FileNode<T> {
    /// The attributes under which the node is served, for inode 1.
    pub fn into_attr(&self) -> (attr: FileAttr)
        ensures
            attr == fake_fattr(1, served_kind(*self)),
    {
        let kind = match self {
            FileNode::Regular { .. } => FileType::Symlink,
            FileNode::Symlink { .. } => FileType::Symlink,
            FileNode::Directory { .. } => FileType::Directory,
        };
        build_fake_fattr(1, kind)
    }
}

} // verus!
