//! What the package index speaks of: store paths and the files below them.

use vstd::prelude::*;
use vstd::string::*;
use crate::text::join_text;

verus! {

/// Where a store path comes from in the package set.
#[derive(Debug)]
pub struct PathOrigin {
    /// The attribute name of the package.
    pub attr: String,
    /// The output of the package that the path is.
    pub output: String,
    /// Whether the package is offered by itself; a path that is only pulled
    /// in by others is never proposed as a provider.
    pub toplevel: bool,
    /// The system the path was built for, where it is known.
    pub system: Option<String>,
}

/// An origin as plain values.
pub struct PathOriginView {
    pub attr: Seq<char>,
    pub output: Seq<char>,
    pub toplevel: bool,
    pub system: Option<Seq<char>>,
}

impl View for PathOrigin {
    type V = PathOriginView;

    open spec fn view(&self) -> PathOriginView {
        PathOriginView {
            attr: self.attr@,
            output: self.output@,
            toplevel: self.toplevel,
            system: match self.system {
                Some(s) => Some(s@),
                None => None,
            },
        }
    }
}

impl Clone for PathOrigin {
    fn clone(&self) -> (r: Self)
        ensures
            r == *self,
    {
        PathOrigin {
            attr: self.attr.clone(),
            output: self.output.clone(),
            toplevel: self.toplevel,
            system: match &self.system {
                Some(s) => Some(s.clone()),
                None => None,
            },
        }
    }
}

/// A package in the store: `<store_dir>/<hash>-<name>`.
#[derive(Debug)]
pub struct StorePath {
    pub store_dir: String,
    pub hash: String,
    pub name: String,
    pub origin: PathOrigin,
}

/// A store path as plain values.
pub struct StorePathView {
    pub store_dir: Seq<char>,
    pub hash: Seq<char>,
    pub name: Seq<char>,
    pub origin: PathOriginView,
}

impl StorePathView {
    /// The path as text.
    pub open spec fn text(self) -> Seq<char> {
        self.store_dir + seq!['/'] + self.hash + seq!['-'] + self.name
    }

    /// The text of a file below the path; `entry` starts with the separator.
    pub open spec fn joined(self, entry: Seq<char>) -> Seq<char> {
        self.text() + entry
    }
}

impl View for StorePath {
    type V = StorePathView;

    open spec fn view(&self) -> StorePathView {
        StorePathView {
            store_dir: self.store_dir@,
            hash: self.hash@,
            name: self.name@,
            origin: self.origin@,
        }
    }
}

impl Clone for StorePath {
    fn clone(&self) -> (r: Self)
        ensures
            r == *self,
    {
        StorePath {
            store_dir: self.store_dir.clone(),
            hash: self.hash.clone(),
            name: self.name.clone(),
            origin: self.origin.clone(),
        }
    }
}

impl StorePath {
    /// The store path `<store_dir>/<hash>-<name>` of the package that
    /// `origin` describes.
    pub fn new(store_dir: String, hash: String, name: String, origin: PathOrigin) -> (r: Self)
        ensures
            r.store_dir == store_dir,
            r.hash == hash,
            r.name == name,
            r.origin == origin,
    {
        StorePath { store_dir, hash, name, origin }
    }

    /// Where the store path comes from.
    pub fn origin(&self) -> (r: &PathOrigin)
        ensures
            *r == self.origin,
    {
        &self.origin
    }

    /// The path as text.
    pub fn as_str(&self) -> (r: String)
        ensures
            r@ == self@.text(),
    {
        proof {
            reveal_strlit("/");
            reveal_strlit("-");
        }
        let mut r = join_text(self.store_dir.as_str(), "/");
        r.append(self.hash.as_str());
        r.append("-");
        r.append(self.name.as_str());
        assert("/"@ =~= seq!['/']);
        assert("-"@ =~= seq!['-']);
        r
    }

    /// The text of the file `entry` of this package.
    pub fn join(&self, entry: &str) -> (r: String)
        ensures
            r@ == self@.joined(entry@),
    {
        let mut r = self.as_str();
        r.append(entry);
        r
    }

    /// The text of the file that `entry` names in this package.
    pub fn join_entry(&self, entry: &FileTreeEntry) -> (r: String)
        ensures
            r@ == self@.joined(entry.path@),
    {
        self.join(entry.path.as_str())
    }
}

/// A file of a package, as the index records it.
#[derive(Debug)]
pub enum FileNode<T> {
    Regular { size: u64, executable: bool },
    Symlink { target: String },
    Directory { size: u64, contents: T },
}

/// A file of a package with its path, which starts at the package's root
/// with a separator.
#[derive(Debug)]
pub struct FileTreeEntry {
    pub path: String,
    pub node: FileNode<()>,
}

impl Clone for FileTreeEntry {
    fn clone(&self) -> (r: Self)
        ensures
            r == *self,
    {
        FileTreeEntry {
            path: self.path.clone(),
            node: match &self.node {
                FileNode::Regular { size, executable } => FileNode::Regular {
                    size: *size,
                    executable: *executable,
                },
                FileNode::Symlink { target } => FileNode::Symlink { target: target.clone() },
                FileNode::Directory { size, contents } => FileNode::Directory {
                    size: *size,
                    contents: *contents,
                },
            },
        }
    }
}

/// A package together with the file of it that answers a lookup.
pub type Candidate = (StorePath, FileTreeEntry);

/// A copy of a candidate.
pub fn clone_candidate(c: &Candidate) -> (r: Candidate)
    ensures
        r == *c,
{
    (c.0.clone(), c.1.clone())
}

} // verus!
