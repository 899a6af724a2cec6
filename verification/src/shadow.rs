//! The shadow tree: which entries of a package get a mirror, and of what
//! kind.

use vstd::prelude::*;
use vstd::string::*;
use crate::text::{join_path, joined};

verus! {

/// What an entry of a package is, without following links.
#[derive(Clone, Copy, Debug, PartialEq, Eq, Structural)]
pub enum EntryKind {
    Directory,
    File,
    Symlink,
    Other,
}

/// What a link leads to in the end.
#[derive(Clone, Copy, Debug, PartialEq, Eq, Structural)]
pub enum ResolvedKind {
    Directory,
    File,
    Other,
}

/// How many links of a chain are followed before the chain counts as a
/// loop.
pub const MAX_LINKS: usize = 40;

/// What is done at one place of a chain of links.
#[derive(Clone, Copy, Debug, PartialEq, Eq, Structural)]
pub enum LinkStep {
    /// The place is no link: the chain ends here.
    Arrived,
    /// The place is a link: read it and go on where it leads.
    Follow,
    /// Too many links were followed: the chain is a loop.
    Loop,
}

/// What is done for an entry of a package.
#[derive(Clone, Copy, Debug, PartialEq, Eq, Structural)]
pub enum ShadowAction {
    /// Nothing.
    Skip,
    /// Make the directory, with the directories above it.
    MakeDirectory,
    /// Make a link to the entry.
    Link,
    /// Mirror the directory that the link leads to, at the place of the
    /// link.
    Recurse,
}

/// What is in the shadow tree at a path.
#[derive(Clone, Copy, Debug, PartialEq, Eq, Structural)]
pub enum Mirror {
    Directory,
    Link,
}

/// Whether `path` is `dir` or lies below it.
pub open spec fn below(path: Seq<char>, dir: Seq<char>) -> bool {
    path == dir || (path.len() > dir.len() && path.subrange(0, dir.len() as int) == dir
        && path[dir.len() as int] == '/')
}

/// Whether `path` lies in one of the excluded directories.
pub open spec fn excluded(path: Seq<char>, dirs: Seq<String>) -> bool {
    exists|i: int| 0 <= i < dirs.len() && below(path, (#[trigger] dirs[i])@)
}

/// What is done for an entry: nothing where its mirror exists, for that one
/// was first, and nothing in an excluded directory; else a directory is
/// made, a file is linked, and a link is linked if it leads to a file and
/// entered if it leads to a directory.
pub open spec fn action_for(
    target_exists: bool,
    is_excluded: bool,
    kind: EntryKind,
    resolved: ResolvedKind,
) -> ShadowAction {
    if target_exists || is_excluded {
        ShadowAction::Skip
    } else {
        match kind {
            EntryKind::Directory => ShadowAction::MakeDirectory,
            EntryKind::File => ShadowAction::Link,
            EntryKind::Symlink => match resolved {
                ResolvedKind::Directory => ShadowAction::Recurse,
                ResolvedKind::File => ShadowAction::Link,
                ResolvedKind::Other => ShadowAction::Skip,
            },
            EntryKind::Other => ShadowAction::Skip,
        }
    }
}

/// What is done for an entry of a package. `resolved` says what the entry
/// leads to if it is a link, and counts for nothing else.
pub fn shadow_action(
    target_exists: bool,
    is_excluded: bool,
    kind: EntryKind,
    resolved: ResolvedKind,
) -> (action: ShadowAction)
    ensures
        action == action_for(target_exists, is_excluded, kind, resolved),
{
    if target_exists || is_excluded {
        return ShadowAction::Skip;
    }
    match kind {
        EntryKind::Directory => ShadowAction::MakeDirectory,
        EntryKind::File => ShadowAction::Link,
        EntryKind::Symlink => match resolved {
            ResolvedKind::Directory => ShadowAction::Recurse,
            ResolvedKind::File => ShadowAction::Link,
            ResolvedKind::Other => ShadowAction::Skip,
        },
        EntryKind::Other => ShadowAction::Skip,
    }
}

/// What is done at a place of a chain of links, after `hops` links were
/// followed: a place that is no link ends the chain, a link is followed
/// while fewer than `MAX_LINKS` were, and after that the chain is a loop.
pub fn link_step(hops: usize, is_link: bool) -> (step: LinkStep)
    ensures
        step == if !is_link {
            LinkStep::Arrived
        } else if hops < MAX_LINKS {
            LinkStep::Follow
        } else {
            LinkStep::Loop
        },
{
    if !is_link {
        LinkStep::Arrived
    } else if hops < MAX_LINKS {
        LinkStep::Follow
    } else {
        LinkStep::Loop
    }
}

/// What the end of a chain of links counts as: a place that is still a
/// link, as happens in a loop, is neither a directory nor a file, whatever
/// a look through it says.
pub fn resolved_kind(is_link: bool, is_dir: bool, is_file: bool) -> (kind: ResolvedKind)
    ensures
        kind == if is_link {
            ResolvedKind::Other
        } else if is_dir {
            ResolvedKind::Directory
        } else if is_file {
            ResolvedKind::File
        } else {
            ResolvedKind::Other
        },
{
    if is_link {
        ResolvedKind::Other
    } else if is_dir {
        ResolvedKind::Directory
    } else if is_file {
        ResolvedKind::File
    } else {
        ResolvedKind::Other
    }
}

/// Whether `path` is `dir` or lies below it.
pub fn is_below(path: &str, dir: &str) -> (r: bool)
    ensures
        r == below(path@, dir@),
{
    let p = path.unicode_len();
    let d = dir.unicode_len();
    if p < d {
        return false;
    }
    let mut i: usize = 0;
    while i < d
        invariant
            i <= d,
            d <= p,
            p == path@.len(),
            d == dir@.len(),
            forall|j: int| 0 <= j < i ==> path@[j] == dir@[j],
        decreases d - i,
    {
        if path.get_char(i) != dir.get_char(i) {
            assert(path@.subrange(0, d as int)[i as int] != dir@[i as int]);
            return false;
        }
        i = i + 1;
    }
    assert(path@.subrange(0, d as int) =~= dir@);
    if p == d {
        assert(path@ =~= dir@);
        true
    } else {
        path.get_char(d) == '/'
    }
}

/// Whether `path` lies in one of the excluded directories.
pub fn is_excluded(path: &str, excluded_dirs: &Vec<String>) -> (r: bool)
    ensures
        r == excluded(path@, excluded_dirs@),
{
    let mut i: usize = 0;
    while i < excluded_dirs.len()
        invariant
            i <= excluded_dirs.len(),
            forall|j: int| 0 <= j < i ==> !below(path@, (#[trigger] excluded_dirs@[j])@),
        decreases excluded_dirs.len() - i,
    {
        if is_below(path, excluded_dirs[i].as_str()) {
            return true;
        }
        i = i + 1;
    }
    false
}

/// The path that a link leads to: the link's own text if that starts at the
/// root, and else the text below the directory that holds the link.
pub fn promote(parent: &str, link: &str) -> (r: String)
    ensures
        r@ == joined(parent@, link@),
{
    join_path(parent, link)
}

/// The mirror of the entry `suffix` of a package: the path below the root
/// of the shadow tree.
pub fn mirror_path(target_dir: &str, suffix: &str) -> (r: String)
    ensures
        r@ == joined(target_dir@, suffix@),
{
    join_path(target_dir, suffix)
}

/// The shadow tree after an entry was dealt with: the mirror is there if a
/// directory was made or a link; where the directory behind a link is
/// entered, its entries are dealt with one by one, each in the same way.
pub open spec fn after_action(
    tree: Map<Seq<char>, Mirror>,
    target: Seq<char>,
    action: ShadowAction,
) -> Map<Seq<char>, Mirror> {
    match action {
        ShadowAction::MakeDirectory => tree.insert(target, Mirror::Directory),
        ShadowAction::Link => tree.insert(target, Mirror::Link),
        ShadowAction::Skip => tree,
        ShadowAction::Recurse => tree,
    }
}

/// An entry of a package as it is met on the walk: the path of its mirror,
/// whether it lies in an excluded directory, and what it is.
pub struct Walked {
    pub target: Seq<char>,
    pub is_excluded: bool,
    pub kind: EntryKind,
    pub resolved: ResolvedKind,
}

/// The shadow tree after one entry.
pub open spec fn after_entry(tree: Map<Seq<char>, Mirror>, entry: Walked) -> Map<
    Seq<char>,
    Mirror,
> {
    after_action(
        tree,
        entry.target,
        action_for(
            tree.contains_key(entry.target),
            entry.is_excluded,
            entry.kind,
            entry.resolved,
        ),
    )
}

/// The shadow tree after the entries of a walk, in their order.
pub open spec fn after_walk(tree: Map<Seq<char>, Mirror>, entries: Seq<Walked>) -> Map<
    Seq<char>,
    Mirror,
>
    decreases entries.len(),
{
    if entries.len() == 0 {
        tree
    } else {
        after_entry(after_walk(tree, entries.drop_last()), entries.last())
    }
}

/// Extending the shadow tree takes nothing away and changes nothing that
/// is there: who mirrors a path first keeps it.
pub proof fn lemma_walk_only_adds(tree: Map<Seq<char>, Mirror>, entries: Seq<Walked>)
    ensures
        forall|path: Seq<char>| #[trigger]
            tree.contains_key(path) ==> after_walk(tree, entries).contains_key(path) && after_walk(
                tree,
                entries,
            )[path] == tree[path],
    decreases entries.len(),
{
    if entries.len() > 0 {
        lemma_walk_only_adds(tree, entries.drop_last());
    }
}

/// A second package cannot take over what the first one mirrored.
pub proof fn lemma_first_extend_wins(
    tree: Map<Seq<char>, Mirror>,
    first: Seq<Walked>,
    second: Seq<Walked>,
)
    ensures
        forall|path: Seq<char>| #[trigger]
            after_walk(tree, first).contains_key(path) ==> after_walk(
                after_walk(tree, first),
                second,
            ).contains_key(path) && after_walk(after_walk(tree, first), second)[path]
                == after_walk(tree, first)[path],
{
    lemma_walk_only_adds(after_walk(tree, first), second);
}

} // verus!
