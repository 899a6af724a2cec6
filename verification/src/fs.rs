//! The lookup resolver: what a lookup is answered with, and what has to be
//! found out first.
//!
//! A lookup is answered in steps. Each step decides as far as it can and
//! then names what it needs from outside: whether a path exists in the
//! shadow tree, the rows of the index, the choice of the user, a store path
//! made real. The caller does that and comes back with the outcome.

use std::collections::HashMap;
use vstd::prelude::*;
use vstd::string::*;
use vstd::utf8::*;
use crate::assoc::{value_at, Assoc};
use crate::attr::{
    build_fake_fattr, dir_like, fake_fattr, file_or_symlink, served_kind, FileAttr, FileType,
};
use crate::cache::{Candidate, FileTreeEntry, StorePath, StorePathView};
use crate::format::{is_written, write_resolution_db};
use crate::index::{
    lemma_toplevel_only, pattern_for, search_pattern, toplevel_candidates, toplevel_only,
};
use crate::popcount::Popcount;
use crate::ranking::{
    extract_optimal_path, homogeneous, in_order, is_homogeneous, lemma_ranked,
    lemma_ranked_members, ranked,
};
use crate::resolution::{
    provided, DbView, Decision, DecisionView, ProvideData, ProvideDataView, Resolution,
    ResolutionDB, ResolutionDataView, ResolutionView,
};
use crate::text::{join_path, joined, str_eq};

verus! {

broadcast use vstd::std_specs::hash::group_hash_axioms;

/// The error number of a path that is not there.
pub const ENOENT: i32 = 2;

/// The inode of the root of the mount.
pub const ROOT_INODE: u64 = 1;

/// For how many seconds a directory of the fixed layout stays valid.
pub const DIRECTORY_TTL: u64 = 3600;

/// For how many seconds a link stays valid.
pub const LINK_TTL: u64 = 1200;

/// What the prompt sends back.
#[derive(Debug)]
pub enum FsEventMessage {
    /// Flush all current pending filesystem access to ENOENT
    IgnorePendingRequests,
    /// A package suggestion as a reply to a user interactive search
    PackageSuggestion(StorePath),
}

/// The answer to a lookup.
#[derive(Clone, Copy, Debug, PartialEq, Eq, Structural)]
pub enum LookupReply {
    /// An entry with its attributes, valid for `ttl` seconds.
    Entry { ttl: u64, attr: FileAttr, generation: u64 },
    /// An error number.
    Error(i32),
}

/// Why the resolver cannot go on.
#[derive(Clone, Copy, Debug, PartialEq, Eq, Structural)]
pub enum Fatal {
    /// The index proposed files and directories for one path.
    IndexCorruption,
    /// No inode is left to hand out.
    InodesExhausted,
}

/// What a step of a lookup ends in.
#[derive(Debug)]
pub enum LookupAction {
    /// The lookup is answered.
    Reply(LookupReply),
    /// Find out whether this path exists, then call `shadow_probed`.
    ProbeShadowTree(String),
    /// Make this store path real, then call `serve_path`; if it cannot be
    /// made real, stop. After that extend the shadow tree by `extend`.
    Realize { nix_path: String, extend: Option<StorePath> },
    /// Ask the index with this pattern, then call `index_answered`.
    QueryIndex(String),
    /// Put these candidates to the prompt, then call `prompt_answered`.
    Ask { candidates: Vec<Candidate>, suggested: Candidate },
    /// Stop.
    Abort(Fatal),
}

/// What a step of a lookup ends in, as plain values.
pub enum ActionView {
    Reply(LookupReply),
    ProbeShadowTree(Seq<char>),
    Realize { nix_path: Seq<char>, extend: Option<StorePathView> },
    QueryIndex(Seq<char>),
    Ask { candidates: Seq<Candidate>, suggested: Candidate },
    Abort(Fatal),
}

impl View for LookupAction {
    type V = ActionView;

    open spec fn view(&self) -> ActionView {
        match self {
            LookupAction::Reply(reply) => ActionView::Reply(*reply),
            LookupAction::ProbeShadowTree(path) => ActionView::ProbeShadowTree(path@),
            LookupAction::Realize { nix_path, extend } => ActionView::Realize {
                nix_path: nix_path@,
                extend: match extend {
                    Some(store_path) => Some(store_path@),
                    None => None,
                },
            },
            LookupAction::QueryIndex(pattern) => ActionView::QueryIndex(pattern@),
            LookupAction::Ask { candidates, suggested } => ActionView::Ask {
                candidates: candidates@,
                suggested: *suggested,
            },
            LookupAction::Abort(fatal) => ActionView::Abort(*fatal),
        }
    }
}

/// The answer to a readlink.
#[derive(Debug)]
pub enum ReadlinkReply {
    /// The bytes of the path that the link points at.
    Data(Vec<u8>),
    /// An error number.
    Error(i32),
}

/// What the first step of a readlink ends in.
#[derive(Debug)]
pub enum ReadlinkAction {
    /// The readlink is answered.
    Reply(ReadlinkReply),
    /// Make this store path real again, then call `readlink_realized`.
    Realize(String),
}

/// The answer that a path is not there.
pub open spec fn absent() -> ActionView {
    ActionView::Reply(LookupReply::Error(ENOENT))
}

/// The end of a step that has no inode left to hand out.
pub open spec fn exhausted() -> ActionView {
    ActionView::Abort(Fatal::InodesExhausted)
}

/// The answer that hands out `ino` as a link.
pub open spec fn link_reply(ino: u64) -> LookupReply {
    LookupReply::Entry { ttl: LINK_TTL, attr: fake_fattr(ino, FileType::Symlink), generation: ino }
}

/// The resolver's tables, as plain values.
pub struct StateView {
    /// The recorded resolutions.
    pub db: DbView,
    /// The lookups that found nothing in this session.
    pub recorded_enoent: Set<(u64, Seq<char>)>,
    /// The inodes of the directories of the fixed layout, by path.
    pub global_dirs: Map<Seq<char>, u64>,
    /// The paths of the directories, by inode.
    pub parent_prefixes: Map<u64, Seq<char>>,
    /// The store paths that links point at, by inode.
    pub nix_paths: Map<u64, Seq<char>>,
    /// The paths in the shadow tree that links point at, by inode.
    pub redirections: Map<u64, Seq<char>>,
    /// The root of the shadow tree.
    pub fast_working_tree: Seq<char>,
    /// The inode that is handed out next.
    pub last_inode: u64,
}

impl StateView {
    /// Inodes are handed out once: each one that is in use is the root or
    /// below the next one, and stands for a directory, for a store path or
    /// for a path in the shadow tree, never for two of these.
    pub open spec fn inv(self) -> bool {
        &&& self.last_inode >= 2
        &&& forall|k: u64| #[trigger]
            self.parent_prefixes.contains_key(k) ==> 1 <= k < self.last_inode
        &&& forall|k: u64| #[trigger] self.nix_paths.contains_key(k) ==> 2 <= k < self.last_inode
        &&& forall|k: u64| #[trigger]
            self.redirections.contains_key(k) ==> 2 <= k < self.last_inode
        &&& forall|k: u64| #[trigger]
            self.nix_paths.contains_key(k) ==> !self.redirections.contains_key(k)
                && !self.parent_prefixes.contains_key(k)
        &&& forall|k: u64| #[trigger]
            self.redirections.contains_key(k) ==> !self.parent_prefixes.contains_key(k)
        &&& forall|d: Seq<char>| #[trigger]
            self.global_dirs.contains_key(d) ==> self.parent_prefixes.contains_key(
                self.global_dirs[d],
            )
    }

    /// The path that `name` stands for below the directory `parent`.
    pub open spec fn target(self, parent: u64, name: Seq<char>) -> Seq<char> {
        joined(self.parent_prefixes[parent], name)
    }

    /// The decision recorded for `name` below `parent`.
    pub open spec fn decision(self, parent: u64, name: Seq<char>) -> Option<DecisionView> {
        if self.db.contains_key(self.target(parent, name)) {
            Some(self.db[self.target(parent, name)].decision())
        } else {
            None
        }
    }

    /// The tables with `decision` recorded for `name` below `parent`.
    pub open spec fn recorded(self, parent: u64, name: Seq<char>, decision: DecisionView) -> Self {
        let path = self.target(parent, name);
        StateView {
            db: self.db.insert(
                path,
                ResolutionView::ConstantResolution(
                    ResolutionDataView { requested_path: path, decision },
                ),
            ),
            ..self
        }
    }

    /// The tables with the lookup remembered as one that found nothing.
    pub open spec fn remembered_absent(self, parent: u64, name: Seq<char>) -> Self {
        StateView { recorded_enoent: self.recorded_enoent.insert((parent, name)), ..self }
    }

    /// The first step: the fixed directories, the root, and what is known
    /// to be absent.
    pub open spec fn lookup(self, parent: u64, name: Seq<char>) -> ActionView {
        let target = self.target(parent, name);
        if self.global_dirs.contains_key(target) {
            let ino = self.global_dirs[target];
            ActionView::Reply(
                LookupReply::Entry {
                    ttl: DIRECTORY_TTL,
                    attr: fake_fattr(ino, FileType::Directory),
                    generation: ino,
                },
            )
        } else if parent == ROOT_INODE {
            absent()
        } else if self.recorded_enoent.contains((parent, name)) {
            absent()
        } else {
            ActionView::ProbeShadowTree(joined(self.fast_working_tree, target))
        }
    }

    /// The second step: the shadow tree, then what is recorded.
    pub open spec fn shadow_probed(self, parent: u64, name: Seq<char>, exists: bool) -> (
        Self,
        ActionView,
    ) {
        let target = self.target(parent, name);
        if exists && self.last_inode == u64::MAX {
            (self, exhausted())
        } else if exists {
            (
                StateView {
                    redirections: self.redirections.insert(
                        self.last_inode,
                        joined(self.fast_working_tree, target),
                    ),
                    last_inode: (self.last_inode + 1) as u64,
                    ..self
                },
                ActionView::Reply(link_reply(self.last_inode)),
            )
        } else {
            match self.decision(parent, name) {
                Some(DecisionView::Ignore) => (self, absent()),
                Some(DecisionView::Provide(data)) => (
                    self,
                    ActionView::Realize {
                        nix_path: data.store_path.joined(data.file_entry_name),
                        extend: None,
                    },
                ),
                None => (self, ActionView::QueryIndex(pattern_for(target))),
            }
        }
    }

    /// The third step: the rows of the index, ranked.
    pub open spec fn index_answered(
        self,
        popcount: &Popcount,
        parent: u64,
        name: Seq<char>,
        rows: Seq<Candidate>,
    ) -> (Self, ActionView) {
        let candidates = toplevel_only(rows);
        if candidates.len() == 0 {
            (self.remembered_absent(parent, name), absent())
        } else if !homogeneous(candidates) {
            (self, ActionView::Abort(Fatal::IndexCorruption))
        } else {
            (
                self,
                ActionView::Ask {
                    candidates: ranked(popcount, candidates),
                    suggested: ranked(popcount, candidates)[0],
                },
            )
        }
    }

    /// What is recorded when `chosen` is to provide the file `entry`.
    pub open spec fn provision(chosen: StorePathView, entry: FileTreeEntry) -> ProvideDataView {
        ProvideDataView {
            kind: served_kind(entry.node),
            file_entry_name: entry.path@,
            store_path: chosen,
        }
    }

    /// The fourth step: the choice of the user, recorded.
    pub open spec fn prompt_answered(
        self,
        parent: u64,
        name: Seq<char>,
        suggested: Candidate,
        reply: Option<FsEventMessage>,
    ) -> (Self, ActionView) {
        match reply {
            Some(FsEventMessage::PackageSuggestion(chosen)) => (
                self.recorded(
                    parent,
                    name,
                    DecisionView::Provide(Self::provision(chosen@, suggested.1)),
                ),
                ActionView::Realize {
                    nix_path: chosen@.joined(suggested.1.path@),
                    extend: Some(chosen@),
                },
            ),
            _ => (
                self.recorded(parent, name, DecisionView::Ignore).remembered_absent(parent, name),
                absent(),
            ),
        }
    }

    /// The last step: the store path, made real, gets its inode, if one is
    /// left.
    pub open spec fn served(self, nix_path: Seq<char>) -> (Self, ActionView) {
        if self.last_inode == u64::MAX {
            (self, exhausted())
        } else {
            (
                StateView {
                    nix_paths: self.nix_paths.insert(self.last_inode, nix_path),
                    last_inode: (self.last_inode + 1) as u64,
                    ..self
                },
                ActionView::Reply(link_reply(self.last_inode)),
            )
        }
    }

    /// The tables with the root of the mount.
    pub open spec fn with_root(self) -> Self {
        StateView { parent_prefixes: self.parent_prefixes.insert(ROOT_INODE, Seq::empty()), ..self }
    }

    /// The tables with one more directory of the fixed layout.
    pub open spec fn with_directory(self, path: Seq<char>) -> Self {
        StateView {
            parent_prefixes: self.parent_prefixes.insert(self.last_inode, path),
            global_dirs: self.global_dirs.insert(path, self.last_inode),
            last_inode: (self.last_inode + 1) as u64,
            ..self
        }
    }

    /// The tables at the start of a mount: the root and the directories of
    /// the fixed layout, each under its whole path.
    pub open spec fn init(self) -> Self {
        self.with_root().with_directory("bin"@).with_directory("include"@).with_directory(
            "perl"@,
        ).with_directory("aclocal"@).with_directory("cmake"@).with_directory(
            "lib"@,
        ).with_directory("lib/pkgconfig"@)
    }
}

/// The texts held in a table of inodes.
pub open spec fn texts(m: Map<u64, String>) -> Map<u64, Seq<char>> {
    Map::new(|k: u64| m.contains_key(k), |k: u64| m[k]@)
}

/// The lookups held in a list.
pub open spec fn lookups(v: Seq<(u64, String)>) -> Set<(u64, Seq<char>)> {
    Set::new(
        |p: (u64, Seq<char>)|
            exists|i: int| 0 <= i < v.len() && (#[trigger] v[i]).0 == p.0 && v[i].1@ == p.1,
    )
}

/// The inodes held in a table of directories.
pub open spec fn directories(entries: Seq<(String, u64)>) -> Map<Seq<char>, u64> {
    Map::new(
        |path: Seq<char>| value_at(entries, path) is Some,
        |path: Seq<char>| value_at(entries, path)->0,
    )
}

/// The resolver.
pub struct BuildXYZ {
    pub popcount_buffer: Popcount,
    /// resolution information for this instance
    pub resolution_db: ResolutionDB,
    /// where to write this instance resolutions
    pub resolution_record_filepath: Option<String>,
    /// recorded ENOENTs
    pub recorded_enoent: Vec<(u64, String)>,
    /// "global path" -> inode
    pub global_dirs: Assoc<u64>,
    /// inode -> "virtual paths"
    pub parent_prefixes: HashMap<u64, String>,
    /// inode -> nix store paths
    pub nix_paths: HashMap<u64, String>,
    /// inode -> "virtual foreign paths" (on another filesystem)
    pub redirections: HashMap<u64, String>,
    /// fast working tree for subgraph extraction
    pub fast_working_tree: String,
    pub last_inode: u64,
}

impl View for BuildXYZ {
    type V = StateView;

    open spec fn view(&self) -> StateView {
        StateView {
            db: self.resolution_db@,
            recorded_enoent: lookups(self.recorded_enoent@),
            global_dirs: directories(self.global_dirs.entries@),
            parent_prefixes: texts(self.parent_prefixes@),
            nix_paths: texts(self.nix_paths@),
            redirections: texts(self.redirections@),
            fast_working_tree: self.fast_working_tree@,
            last_inode: self.last_inode,
        }
    }
}

impl BuildXYZ {
    /// The resolutions are in order, and the tables of inodes are sound.
    pub open spec fn wf(&self) -> bool {
        &&& self.resolution_db.wf()
        &&& self@.inv()
    }

    /// What a mount is set up with stays as it is.
    pub open spec fn same_setup(&self, other: &Self) -> bool {
        &&& self.popcount_buffer == other.popcount_buffer
        &&& self.resolution_record_filepath == other.resolution_record_filepath
        &&& self.fast_working_tree == other.fast_working_tree
    }

    /// A resolver with nothing in its tables but the resolutions.
    pub fn new(
        popcount_buffer: Popcount,
        resolution_db: ResolutionDB,
        resolution_record_filepath: Option<String>,
        fast_working_tree: String,
    ) -> (r: Self)
        requires
            resolution_db.wf(),
        ensures
            r.wf(),
            r.popcount_buffer == popcount_buffer,
            r.resolution_db == resolution_db,
            r.resolution_record_filepath == resolution_record_filepath,
            r.fast_working_tree == fast_working_tree,
            r@ == (StateView {
                db: resolution_db@,
                recorded_enoent: Set::empty(),
                global_dirs: Map::empty(),
                parent_prefixes: Map::empty(),
                nix_paths: Map::empty(),
                redirections: Map::empty(),
                fast_working_tree: fast_working_tree@,
                last_inode: 2,
            }),
    {
        let r = BuildXYZ {
            popcount_buffer,
            resolution_db,
            resolution_record_filepath,
            recorded_enoent: Vec::new(),
            global_dirs: Assoc::new(),
            parent_prefixes: HashMap::new(),
            nix_paths: HashMap::new(),
            redirections: HashMap::new(),
            fast_working_tree,
            last_inode: 2,
        };
        assert(r@.recorded_enoent =~= Set::empty());
        assert(r@.global_dirs =~= Map::empty());
        assert(r@.parent_prefixes =~= Map::empty());
        assert(r@.nix_paths =~= Map::empty());
        assert(r@.redirections =~= Map::empty());
        r
    }

    /// Whether `ino` is a directory that names can be looked up in.
    pub fn knows_parent(&self, ino: u64) -> (r: bool)
        ensures
            r == self@.parent_prefixes.contains_key(ino),
    {
        self.parent_prefixes.contains_key(&ino)
    }

    /// Hands out the next inode, if one is left; where none is, nothing
    /// changes.
    fn allocate_inode(&mut self) -> (r: Option<u64>)
        ensures
            match r {
                Some(ino) => ino == old(self).last_inode && ino < u64::MAX && *final(self) == (
                    BuildXYZ { last_inode: (ino + 1) as u64, ..*old(self) }),
                None => old(self).last_inode == u64::MAX && *final(self) == *old(self),
            },
    {
        if self.last_inode == u64::MAX {
            return None;
        }
        self.last_inode = self.last_inode + 1;
        Some(self.last_inode - 1)
    }

    /// The path that `name` stands for below the directory `parent`.
    pub fn build_in_construction_path(&self, parent: u64, name: &str) -> (path: String)
        requires
            self@.parent_prefixes.contains_key(parent),
        ensures
            path@ == self@.target(parent, name@),
    {
        let prefix = self.parent_prefixes.get(&parent);
        match prefix {
            Some(prefix) => join_path(prefix.as_str(), name),
            None => {
                assert(false);
                String::new()
            },
        }
    }

    /// Records `decision` for `name` below `parent`, in place of what was
    /// recorded.
    pub fn record_resolution(&mut self, parent: u64, name: &str, decision: Decision)
        requires
            old(self).wf(),
            old(self)@.parent_prefixes.contains_key(parent),
        ensures
            final(self).wf(),
            final(self).same_setup(old(self)),
            final(self)@ == old(self)@.recorded(parent, name@, decision@),
    {
        let current_path = self.build_in_construction_path(parent, name);
        self.resolution_db.insert(Resolution::constant(current_path, decision));
        assert(self@.parent_prefixes == old(self)@.parent_prefixes);
        assert(self@.nix_paths == old(self)@.nix_paths);
        assert(self@.redirections == old(self)@.redirections);
        assert(self@.global_dirs == old(self)@.global_dirs);
        assert(self@.inv());
    }

    /// The resolution recorded for `name` below `parent`.
    pub fn get_resolution(&self, parent: u64, name: &str) -> (r: Option<&Resolution>)
        requires
            self.wf(),
            self@.parent_prefixes.contains_key(parent),
        ensures
            match r {
                Some(found) => self@.db.contains_key(self@.target(parent, name@)) && found@
                    == self@.db[self@.target(parent, name@)],
                None => !self@.db.contains_key(self@.target(parent, name@)),
            },
    {
        let current_path = self.build_in_construction_path(parent, name);
        self.resolution_db.get(current_path.as_str())
    }

    /// The decision recorded for `name` below `parent`.
    pub fn get_decision(&self, parent: u64, name: &str) -> (r: Option<&Decision>)
        requires
            self.wf(),
            self@.parent_prefixes.contains_key(parent),
        ensures
            match r {
                Some(found) => self@.decision(parent, name@) == Some(found@),
                None => self@.decision(parent, name@) is None,
            },
    {
        match self.get_resolution(parent, name) {
            Some(resolution) => Some(resolution.decision()),
            None => None,
        }
    }

    /// Whether the lookup found nothing before in this session.
    fn is_recorded_enoent(&self, parent: u64, name: &str) -> (r: bool)
        ensures
            r == self@.recorded_enoent.contains((parent, name@)),
    {
        let mut i: usize = 0;
        while i < self.recorded_enoent.len()
            invariant
                i <= self.recorded_enoent.len(),
                forall|j: int|
                    0 <= j < i ==> !((#[trigger] self.recorded_enoent@[j]).0 == parent
                        && self.recorded_enoent@[j].1@ == name@),
            decreases self.recorded_enoent.len() - i,
        {
            if self.recorded_enoent[i].0 == parent && str_eq(
                self.recorded_enoent[i].1.as_str(),
                name,
            ) {
                return true;
            }
            i = i + 1;
        }
        false
    }

    /// Remembers the lookup as one that found nothing.
    fn record_enoent(&mut self, parent: u64, name: &str)
        ensures
            final(self)@ == old(self)@.remembered_absent(parent, name@),
            final(self).same_setup(old(self)),
            final(self).resolution_db == old(self).resolution_db,
    {
        let ghost before = self.recorded_enoent@;
        let owned = String::from_str(name);
        self.recorded_enoent.push((parent, owned));
        proof {
            let after = self.recorded_enoent@;
            assert forall|p: (u64, Seq<char>)| #[trigger]
                lookups(after).contains(p) <==> (p == (parent, name@) || lookups(before).contains(
                    p,
                )) by {
                if lookups(after).contains(p) {
                    let i = choose|i: int|
                        0 <= i < after.len() && (#[trigger] after[i]).0 == p.0 && after[i].1@
                            == p.1;
                    if i < before.len() {
                        assert(before[i] == after[i]);
                    }
                }
                if lookups(before).contains(p) {
                    let i = choose|i: int|
                        0 <= i < before.len() && (#[trigger] before[i]).0 == p.0 && before[i].1@
                            == p.1;
                    assert(after[i] == before[i]);
                }
                if p == (parent, name@) {
                    assert(after[before.len() as int].0 == parent);
                }
            }
            assert(lookups(after) =~= lookups(before).insert((parent, name@)));
        }
    }

    /// The first step of a lookup.
    pub fn lookup(&self, parent: u64, name: &str) -> (action: LookupAction)
        requires
            self.wf(),
            self@.parent_prefixes.contains_key(parent),
        ensures
            action@ == self@.lookup(parent, name@),
    {
        let target_path = self.build_in_construction_path(parent, name);
        match self.global_dirs.get(target_path.as_str()) {
            Some(inode) => {
                return LookupAction::Reply(
                    LookupReply::Entry {
                        ttl: DIRECTORY_TTL,
                        attr: build_fake_fattr(*inode, FileType::Directory),
                        generation: *inode,
                    },
                );
            },
            None => {},
        }
        if parent == ROOT_INODE {
            return LookupAction::Reply(LookupReply::Error(ENOENT));
        }
        if self.is_recorded_enoent(parent, name) {
            return LookupAction::Reply(LookupReply::Error(ENOENT));
        }
        LookupAction::ProbeShadowTree(
            join_path(self.fast_working_tree.as_str(), target_path.as_str()),
        )
    }

    /// Hands out a link to a path in the shadow tree, if an inode is left.
    fn redirect_to_fs(&mut self, onfs_path: String) -> (action: LookupAction)
        requires
            old(self).wf(),
        ensures
            final(self).wf(),
            final(self).same_setup(old(self)),
            old(self).last_inode == u64::MAX ==> final(self)@ == old(self)@ && action@ == exhausted(),
            old(self).last_inode < u64::MAX ==> final(self)@ == (StateView {
                redirections: old(self)@.redirections.insert(old(self).last_inode, onfs_path@),
                last_inode: (old(self).last_inode + 1) as u64,
                ..old(self)@
            }) && action@ == ActionView::Reply(link_reply(old(self).last_inode)),
    {
        let ino = match self.allocate_inode() {
            Some(ino) => ino,
            None => {
                return LookupAction::Abort(Fatal::InodesExhausted);
            },
        };
        let ft_attribute = build_fake_fattr(ino, FileType::Symlink);
        let ghost before = self.redirections@;
        self.redirections.insert(ino, onfs_path);
        assert(texts(self.redirections@) =~= texts(before).insert(ino, onfs_path@));
        assert(!old(self)@.nix_paths.contains_key(ino));
        assert(!old(self)@.parent_prefixes.contains_key(ino));
        assert(self@.parent_prefixes == old(self)@.parent_prefixes);
        assert(self@.nix_paths == old(self)@.nix_paths);
        assert(self@.global_dirs == old(self)@.global_dirs);
        LookupAction::Reply(LookupReply::Entry { ttl: LINK_TTL, attr: ft_attribute, generation: ino })
    }

    /// The second step of a lookup: `exists` says whether the path that the
    /// first step named is in the shadow tree.
    pub fn shadow_probed(&mut self, parent: u64, name: &str, exists: bool) -> (action:
        LookupAction)
        requires
            old(self).wf(),
            old(self)@.parent_prefixes.contains_key(parent),
        ensures
            final(self).wf(),
            final(self).same_setup(old(self)),
            (final(self)@, action@) == old(self)@.shadow_probed(parent, name@, exists),
    {
        let target_path = self.build_in_construction_path(parent, name);
        if exists {
            let onfs_path = join_path(self.fast_working_tree.as_str(), target_path.as_str());
            return self.redirect_to_fs(onfs_path);
        }
        match self.get_decision(parent, name) {
            Some(Decision::Ignore) => LookupAction::Reply(LookupReply::Error(ENOENT)),
            Some(Decision::Provide(data)) => LookupAction::Realize {
                nix_path: data.store_path.join(data.file_entry_name.as_str()),
                extend: None,
            },
            None => LookupAction::QueryIndex(search_pattern(target_path.as_str())),
        }
    }

    /// The third step of a lookup: `rows` is what the index holds for the
    /// pattern that the second step named.
    pub fn index_answered(&mut self, parent: u64, name: &str, rows: &Vec<Candidate>) -> (action:
        LookupAction)
        requires
            old(self).wf(),
        ensures
            final(self).wf(),
            final(self).same_setup(old(self)),
            (final(self)@, action@) == old(self)@.index_answered(
                &old(self).popcount_buffer,
                parent,
                name@,
                rows@,
            ),
            action@ matches ActionView::Ask { candidates, suggested } ==> homogeneous(candidates)
                && candidates.len() > 0,
    {
        let mut candidates = toplevel_candidates(rows);
        if candidates.len() == 0 {
            self.record_enoent(parent, name);
            return LookupAction::Reply(LookupReply::Error(ENOENT));
        }
        if !is_homogeneous(&candidates) {
            return LookupAction::Abort(Fatal::IndexCorruption);
        }
        proof {
            lemma_ranked_members(&self.popcount_buffer, candidates@);
            lemma_ranked(&self.popcount_buffer, candidates@);
        }
        let suggested = extract_optimal_path(&mut candidates, &self.popcount_buffer);
        LookupAction::Ask { candidates, suggested }
    }

    /// The fourth step of a lookup: `reply` is what the prompt sent back
    /// for the candidates of the third step, of which `suggested` was the
    /// first; there is none where the prompt is gone.
    pub fn prompt_answered(
        &mut self,
        parent: u64,
        name: &str,
        suggested: &Candidate,
        reply: Option<FsEventMessage>,
    ) -> (action: LookupAction)
        requires
            old(self).wf(),
            old(self)@.parent_prefixes.contains_key(parent),
        ensures
            final(self).wf(),
            final(self).same_setup(old(self)),
            (final(self)@, action@) == old(self)@.prompt_answered(
                parent,
                name@,
                *suggested,
                reply,
            ),
    {
        match reply {
            Some(FsEventMessage::PackageSuggestion(pkg)) => {
                let nix_path = pkg.join_entry(&suggested.1);
                let extend = pkg.clone();
                let attr = suggested.1.node.into_attr();
                self.record_resolution(
                    parent,
                    name,
                    Decision::Provide(
                        ProvideData {
                            file_entry_name: suggested.1.path.clone(),
                            kind: attr.kind,
                            store_path: pkg,
                        },
                    ),
                );
                LookupAction::Realize { nix_path, extend: Some(extend) }
            },
            _ => {
                self.record_resolution(parent, name, Decision::Ignore);
                self.record_enoent(parent, name);
                LookupAction::Reply(LookupReply::Error(ENOENT))
            },
        }
    }

    /// The last step of a lookup that hands out a store path, once the path
    /// has been made real: the path gets its inode and is handed out as a
    /// link. Where no inode is left, nothing changes and the resolver stops.
    pub fn serve_path(&mut self, nix_path: String) -> (action: LookupAction)
        requires
            old(self).wf(),
        ensures
            final(self).wf(),
            final(self).same_setup(old(self)),
            (final(self)@, action@) == old(self)@.served(nix_path@),
    {
        let ino = match self.allocate_inode() {
            Some(ino) => ino,
            None => {
                return LookupAction::Abort(Fatal::InodesExhausted);
            },
        };
        let attribute = build_fake_fattr(ino, FileType::Symlink);
        let ghost before = self.nix_paths@;
        self.nix_paths.insert(ino, nix_path);
        assert(texts(self.nix_paths@) =~= texts(before).insert(ino, nix_path@));
        assert(!old(self)@.redirections.contains_key(ino));
        assert(!old(self)@.parent_prefixes.contains_key(ino));
        assert(self@.parent_prefixes == old(self)@.parent_prefixes);
        assert(self@.redirections == old(self)@.redirections);
        assert(self@.global_dirs == old(self)@.global_dirs);
        assert forall|k: u64| #[trigger] self@.nix_paths.contains_key(k) implies 2 <= k
            < self.last_inode && !self@.redirections.contains_key(k)
            && !self@.parent_prefixes.contains_key(k) by {
            if k != ino {
                assert(old(self)@.nix_paths.contains_key(k));
            }
        }
        LookupAction::Reply(LookupReply::Entry { ttl: LINK_TTL, attr: attribute, generation: ino })
    }
}


/// What a readlink ends in, as plain values.
pub enum ReadlinkView {
    Data(Seq<u8>),
    Error(i32),
    Realize(Seq<char>),
}

impl View for ReadlinkReply {
    type V = ReadlinkView;

    open spec fn view(&self) -> ReadlinkView {
        match self {
            ReadlinkReply::Data(bytes) => ReadlinkView::Data(bytes@),
            ReadlinkReply::Error(errno) => ReadlinkView::Error(*errno),
        }
    }
}

impl View for ReadlinkAction {
    type V = ReadlinkView;

    open spec fn view(&self) -> ReadlinkView {
        match self {
            ReadlinkAction::Reply(reply) => reply@,
            ReadlinkAction::Realize(path) => ReadlinkView::Realize(path@),
        }
    }
}

impl StateView {
    /// The first step of a readlink: a store path has to be made real
    /// again, a path in the shadow tree is handed out as it is.
    pub open spec fn readlink(self, ino: u64) -> ReadlinkView {
        if self.nix_paths.contains_key(ino) {
            ReadlinkView::Realize(self.nix_paths[ino])
        } else if self.redirections.contains_key(ino) {
            ReadlinkView::Data(encode_utf8(self.redirections[ino]))
        } else {
            ReadlinkView::Error(ENOENT)
        }
    }

    /// The second step of a readlink: the store path if it is real, and
    /// else the answer that nothing is there.
    pub open spec fn readlink_realized(self, ino: u64, realized: bool) -> ReadlinkView {
        if realized {
            ReadlinkView::Data(encode_utf8(self.nix_paths[ino]))
        } else {
            ReadlinkView::Error(ENOENT)
        }
    }
}

impl BuildXYZ {
    /// Register known "FHS" structure
    /// Assume parents are already created.
    fn mkdir_fhs_directory(&mut self, path: &str)
        requires
            old(self).wf(),
            old(self).last_inode < u64::MAX,
        ensures
            final(self).wf(),
            final(self).same_setup(old(self)),
            final(self).resolution_db == old(self).resolution_db,
            final(self)@ == old(self)@.with_directory(path@),
    {
        let inode = match self.allocate_inode() {
            Some(inode) => inode,
            None => {
                assert(false);
                return ;
            },
        };
        let ghost prefixes = self.parent_prefixes@;
        let ghost dirs = self.global_dirs.entries@;
        self.parent_prefixes.insert(inode, String::from_str(path));
        self.global_dirs.insert(String::from_str(path), inode);
        proof {
            assert(texts(self.parent_prefixes@) =~= texts(prefixes).insert(inode, path@));
            assert(directories(self.global_dirs.entries@) =~= directories(dirs).insert(
                path@,
                inode,
            ));
            assert(!old(self)@.nix_paths.contains_key(inode));
            assert(!old(self)@.redirections.contains_key(inode));
            assert(self@.nix_paths == old(self)@.nix_paths);
            assert(self@.redirections == old(self)@.redirections);
            assert forall|k: u64| #[trigger] self@.parent_prefixes.contains_key(k) implies 1 <= k
                < self.last_inode by {
                if k != inode {
                    assert(old(self)@.parent_prefixes.contains_key(k));
                }
            }
            assert forall|d: Seq<char>| #[trigger]
                self@.global_dirs.contains_key(d) implies self@.parent_prefixes.contains_key(
                self@.global_dirs[d],
            ) by {
                if d != path@ {
                    assert(old(self)@.global_dirs.contains_key(d));
                    assert(old(self)@.parent_prefixes.contains_key(old(self)@.global_dirs[d]));
                }
            }
        }
    }

    /// Sets the tables up for a mount: the root, and the directories of the
    /// fixed layout. Returns the store paths that the recorded resolutions
    /// provide, in the order of their paths: the shadow tree is to be
    /// extended by each of them.
    pub fn init(&mut self) -> (store_paths: Vec<StorePath>)
        requires
            old(self).wf(),
            old(self).last_inode <= u64::MAX - 7,
        ensures
            final(self).wf(),
            final(self).same_setup(old(self)),
            final(self)@ == old(self)@.init(),
            store_paths@ == provided(old(self).resolution_db.entries@),
    {
        let ghost prefixes = self.parent_prefixes@;
        self.parent_prefixes.insert(ROOT_INODE, String::new());
        proof {
            assert(texts(self.parent_prefixes@) =~= texts(prefixes).insert(
                ROOT_INODE,
                Seq::empty(),
            ));
            assert(self@.nix_paths == old(self)@.nix_paths);
            assert(self@.redirections == old(self)@.redirections);
            assert(self@.global_dirs == old(self)@.global_dirs);
            assert(!old(self)@.nix_paths.contains_key(ROOT_INODE));
            assert(!old(self)@.redirections.contains_key(ROOT_INODE));
            assert forall|k: u64| #[trigger] self@.parent_prefixes.contains_key(k) implies 1 <= k
                < self.last_inode by {
                if k != ROOT_INODE {
                    assert(old(self)@.parent_prefixes.contains_key(k));
                }
            }
            assert forall|d: Seq<char>| #[trigger]
                self@.global_dirs.contains_key(d) implies self@.parent_prefixes.contains_key(
                self@.global_dirs[d],
            ) by {
                assert(old(self)@.global_dirs.contains_key(d));
                assert(old(self)@.parent_prefixes.contains_key(old(self)@.global_dirs[d]));
            }
            assert(self@ == old(self)@.with_root());
        }
        self.mkdir_fhs_directory("bin");
        self.mkdir_fhs_directory("include");
        self.mkdir_fhs_directory("perl");
        self.mkdir_fhs_directory("aclocal");
        self.mkdir_fhs_directory("cmake");
        self.mkdir_fhs_directory("lib");
        self.mkdir_fhs_directory("lib/pkgconfig");
        self.resolution_db.provided_store_paths()
    }

    /// What is to be written where, when the mount ends: the text of the
    /// recorded resolutions, if a file to record them in was named.
    pub fn destroy(&self) -> (r: Option<(String, Option<String>)>)
        requires
            self.wf(),
        ensures
            match (self.resolution_record_filepath, r) {
                (Some(filepath), Some((to, text))) => to == filepath && is_written(
                    self@.db,
                    text,
                ),
                (None, None) => true,
                _ => false,
            },
    {
        match &self.resolution_record_filepath {
            Some(filepath) => Some((filepath.clone(), write_resolution_db(&self.resolution_db))),
            None => None,
        }
    }

    /// The first step of a readlink.
    pub fn readlink(&self, ino: u64) -> (action: ReadlinkAction)
        ensures
            action@ == self@.readlink(ino),
    {
        match self.nix_paths.get(&ino) {
            Some(nix_path) => {
                return ReadlinkAction::Realize(nix_path.clone());
            },
            None => {},
        }
        match self.redirections.get(&ino) {
            Some(redirection_path) => ReadlinkAction::Reply(
                ReadlinkReply::Data(redirection_path.as_str().as_bytes_vec()),
            ),
            None => ReadlinkAction::Reply(ReadlinkReply::Error(ENOENT)),
        }
    }

    /// The second step of a readlink of a store path: `realized` says
    /// whether the path could be made real again. The tables stay as they
    /// are either way.
    pub fn readlink_realized(&self, ino: u64, realized: bool) -> (reply: ReadlinkReply)
        requires
            self@.nix_paths.contains_key(ino),
        ensures
            reply@ == self@.readlink_realized(ino, realized),
    {
        if !realized {
            return ReadlinkReply::Error(ENOENT);
        }
        match self.nix_paths.get(&ino) {
            Some(nix_path) => ReadlinkReply::Data(nix_path.as_str().as_bytes_vec()),
            None => ReadlinkReply::Error(ENOENT),
        }
    }
}

/// What the world outside would answer to each question of a lookup, were
/// it asked.
pub struct World {
    /// Whether the shadow tree holds the path.
    pub exists: bool,
    /// The rows of the index for the path.
    pub rows: Seq<Candidate>,
    /// What the prompt sends back; nothing where it is gone.
    pub answer: Option<FsEventMessage>,
    /// Whether a store path can be made real.
    pub realizable: bool,
}

/// How a lookup ends.
pub enum Outcome {
    /// With an answer to the kernel.
    Reply(LookupReply),
    /// With the resolver stopped: the index is broken, a store path that was
    /// to be handed out cannot be made real, or no inode is left.
    Stopped,
}

/// The answer to the kernel that nothing is there.
pub open spec fn nothing_there() -> Outcome {
    Outcome::Reply(LookupReply::Error(ENOENT))
}

impl StateView {
    /// The end of a lookup that hands out a store path.
    pub open spec fn realized(self, nix_path: Seq<char>, world: World) -> (Self, Outcome) {
        if world.realizable {
            match self.served(nix_path).1 {
                ActionView::Reply(reply) => (self.served(nix_path).0, Outcome::Reply(reply)),
                _ => (self.served(nix_path).0, Outcome::Stopped),
            }
        } else {
            (self, Outcome::Stopped)
        }
    }

    /// A whole lookup: the steps in their order, each as far as it is
    /// needed, against a world that answers as `world` says.
    pub open spec fn resolved(
        self,
        popcount: &Popcount,
        parent: u64,
        name: Seq<char>,
        world: World,
    ) -> (Self, Outcome) {
        match self.lookup(parent, name) {
            ActionView::Reply(reply) => (self, Outcome::Reply(reply)),
            _ => {
                let (probed, second) = self.shadow_probed(parent, name, world.exists);
                match second {
                    ActionView::Reply(reply) => (probed, Outcome::Reply(reply)),
                    ActionView::Realize { nix_path, .. } => probed.realized(nix_path, world),
                    ActionView::QueryIndex(_) => {
                        let (searched, third) = probed.index_answered(
                            popcount,
                            parent,
                            name,
                            world.rows,
                        );
                        match third {
                            ActionView::Reply(reply) => (searched, Outcome::Reply(reply)),
                            ActionView::Ask { suggested, .. } => {
                                let (answered, fourth) = searched.prompt_answered(
                                    parent,
                                    name,
                                    suggested,
                                    world.answer,
                                );
                                match fourth {
                                    ActionView::Reply(reply) => (answered, Outcome::Reply(reply)),
                                    ActionView::Realize { nix_path, .. } => answered.realized(
                                        nix_path,
                                        world,
                                    ),
                                    _ => (answered, Outcome::Stopped),
                                }
                            },
                            _ => (searched, Outcome::Stopped),
                        }
                    },
                    _ => (probed, Outcome::Stopped),
                }
            },
        }
    }

    /// Whether the lookup gets as far as the index: the path is no directory
    /// of the fixed layout and does not lie at the root, nothing is
    /// remembered or recorded for it, and the shadow tree does not hold it.
    pub open spec fn reaches_index(self, parent: u64, name: Seq<char>, world: World) -> bool {
        &&& self.lookup(parent, name) is ProbeShadowTree
        &&& !world.exists
        &&& self.decision(parent, name) is None
    }

    /// The tables of inodes are those of `other`.
    pub open spec fn same_inodes(self, other: Self) -> bool {
        &&& self.last_inode == other.last_inode
        &&& self.parent_prefixes == other.parent_prefixes
        &&& self.nix_paths == other.nix_paths
        &&& self.redirections == other.redirections
        &&& self.global_dirs == other.global_dirs
    }
}

/// No step takes an inode back or hands one out twice. A step hands out one
/// inode at most, the one that was next, and only where it answers with a
/// link; a step that answers with an error, that has to go on, or that
/// stops leaves the tables of inodes as they are.
pub proof fn lemma_inodes_only_grow(
    s: StateView,
    popcount: &Popcount,
    parent: u64,
    name: Seq<char>,
    exists: bool,
    rows: Seq<Candidate>,
    suggested: Candidate,
    reply: Option<FsEventMessage>,
    nix_path: Seq<char>,
)
    requires
        s.inv(),
    ensures
        s.shadow_probed(parent, name, exists).0.inv(),
        s.index_answered(popcount, parent, name, rows).0.inv(),
        s.prompt_answered(parent, name, suggested, reply).0.inv(),
        s.served(nix_path).0.inv(),
        s.last_inode <= s.shadow_probed(parent, name, exists).0.last_inode <= s.last_inode + 1,
        s.last_inode <= s.served(nix_path).0.last_inode <= s.last_inode + 1,
        s.shadow_probed(parent, name, exists).1 != ActionView::Reply(link_reply(s.last_inode))
            ==> s.shadow_probed(parent, name, exists).0 == s,
        s.served(nix_path).1 != ActionView::Reply(link_reply(s.last_inode)) ==> s.served(
            nix_path,
        ).0 == s,
        s.shadow_probed(parent, name, exists).1 == ActionView::Reply(link_reply(s.last_inode))
            ==> s.shadow_probed(parent, name, exists).0.last_inode == s.last_inode + 1,
        s.served(nix_path).1 == ActionView::Reply(link_reply(s.last_inode)) ==> s.served(
            nix_path,
        ).0.last_inode == s.last_inode + 1,
        s.index_answered(popcount, parent, name, rows).0.same_inodes(s),
        s.prompt_answered(parent, name, suggested, reply).0.same_inodes(s),
{
    let a = s.shadow_probed(parent, name, exists).0;
    if exists && s.last_inode < u64::MAX {
        assert forall|k: u64| #[trigger] a.redirections.contains_key(k) implies 2 <= k
            < a.last_inode && !a.parent_prefixes.contains_key(k) by {
            if k != s.last_inode {
                assert(s.redirections.contains_key(k));
            }
        }
        assert(!s.nix_paths.contains_key(s.last_inode));
        assert(!s.parent_prefixes.contains_key(s.last_inode));
    }
    if s.last_inode < u64::MAX {
        let b = s.served(nix_path).0;
        assert forall|k: u64| #[trigger] b.nix_paths.contains_key(k) implies 2 <= k
            < b.last_inode && !b.redirections.contains_key(k) && !b.parent_prefixes.contains_key(
            k,
        ) by {
            if k != s.last_inode {
                assert(s.nix_paths.contains_key(k));
            }
        }
        assert(!s.redirections.contains_key(s.last_inode));
        assert(!s.parent_prefixes.contains_key(s.last_inode));
    }
}

/// Only the choice of the user changes what is recorded, and only for the
/// path that was asked about.
pub proof fn lemma_steps_keep_decisions(
    s: StateView,
    popcount: &Popcount,
    parent: u64,
    name: Seq<char>,
    exists: bool,
    rows: Seq<Candidate>,
    suggested: Candidate,
    reply: Option<FsEventMessage>,
    nix_path: Seq<char>,
)
    ensures
        s.shadow_probed(parent, name, exists).0.db == s.db,
        s.index_answered(popcount, parent, name, rows).0.db == s.db,
        s.served(nix_path).0.db == s.db,
        forall|path: Seq<char>|
            path != s.target(parent, name) && s.db.contains_key(path) ==> s.prompt_answered(
                parent,
                name,
                suggested,
                reply,
            ).0.db.contains_key(path) && s.prompt_answered(parent, name, suggested, reply).0.db[path]
                == s.db[path],
{
}

/// Over a whole lookup, whatever the index, the store helper and the prompt
/// answer, the next inode never goes back and goes on by one at most. It
/// goes on exactly where a link is handed out, which then has the inode
/// that was next. A lookup that ends in an error, in a directory of the
/// fixed layout or with the resolver stopped leaves the tables of inodes as
/// they were: no inode is handed out for nothing.
pub proof fn lemma_lookup_hands_out_one_inode(
    s: StateView,
    popcount: &Popcount,
    parent: u64,
    name: Seq<char>,
    world: World,
)
    requires
        s.inv(),
    ensures
        s.resolved(popcount, parent, name, world).0.inv(),
        s.last_inode <= s.resolved(popcount, parent, name, world).0.last_inode <= s.last_inode
            + 1,
        s.resolved(popcount, parent, name, world).1 == Outcome::Reply(link_reply(s.last_inode))
            ==> s.resolved(popcount, parent, name, world).0.last_inode == s.last_inode + 1,
        s.resolved(popcount, parent, name, world).1 != Outcome::Reply(link_reply(s.last_inode))
            ==> s.resolved(popcount, parent, name, world).0.same_inodes(s),
{
    let (probed, second) = s.shadow_probed(parent, name, world.exists);
    let (searched, third) = probed.index_answered(popcount, parent, name, world.rows);
    lemma_inodes_only_grow(
        s,
        popcount,
        parent,
        name,
        world.exists,
        world.rows,
        arbitrary(),
        world.answer,
        arbitrary(),
    );
    if second is Realize {
        lemma_inodes_only_grow(
            probed,
            popcount,
            parent,
            name,
            world.exists,
            world.rows,
            arbitrary(),
            world.answer,
            second->nix_path,
        );
    }
    if second is QueryIndex && third is Ask {
        let suggested = third->suggested;
        lemma_inodes_only_grow(
            searched,
            popcount,
            parent,
            name,
            world.exists,
            world.rows,
            suggested,
            world.answer,
            arbitrary(),
        );
        let (answered, fourth) = searched.prompt_answered(parent, name, suggested, world.answer);
        if fourth is Realize {
            lemma_inodes_only_grow(
                answered,
                popcount,
                parent,
                name,
                world.exists,
                world.rows,
                suggested,
                world.answer,
                fourth->nix_path,
            );
        }
    }
}

/// No lookup touches the directories: the root and the directories of the
/// fixed layout keep their inodes for as long as the mount lasts. No link
/// is taken back or led elsewhere, and nothing that was remembered as
/// absent is forgotten.
pub proof fn lemma_lookup_keeps_what_was_handed_out(
    s: StateView,
    popcount: &Popcount,
    parent: u64,
    name: Seq<char>,
    world: World,
)
    requires
        s.inv(),
    ensures
        s.resolved(popcount, parent, name, world).0.parent_prefixes == s.parent_prefixes,
        s.resolved(popcount, parent, name, world).0.global_dirs == s.global_dirs,
        s.resolved(popcount, parent, name, world).0.fast_working_tree == s.fast_working_tree,
        s.nix_paths.submap_of(s.resolved(popcount, parent, name, world).0.nix_paths),
        s.redirections.submap_of(s.resolved(popcount, parent, name, world).0.redirections),
        s.recorded_enoent.subset_of(s.resolved(popcount, parent, name, world).0.recorded_enoent),
{
}

/// A lookup for which a package is recorded never asks the index, at
/// whatever step it stands: it leads to the store path that is recorded, or
/// to the shadow tree.
pub proof fn lemma_recorded_is_served(s: StateView, parent: u64, name: Seq<char>, exists: bool)
    requires
        s.decision(parent, name) matches Some(DecisionView::Provide(_)),
    ensures
        !(s.shadow_probed(parent, name, exists).1 is QueryIndex),
        !exists ==> s.shadow_probed(parent, name, exists) == (
            s,
            ActionView::Realize {
                nix_path: s.decision(parent, name)->0->Provide_0.store_path.joined(
                    s.decision(parent, name)->0->Provide_0.file_entry_name,
                ),
                extend: None::<StorePathView>,
            },
        ),
{
}

/// A lookup of a path for which a decision is recorded asks neither the
/// index nor the prompt: it ends the same whatever the two would answer,
/// and whatever the popularity of packages is.
pub proof fn lemma_recorded_lookup_asks_nobody(
    s: StateView,
    parent: u64,
    name: Seq<char>,
    popcount: &Popcount,
    world: World,
    other_popcount: &Popcount,
    other_world: World,
)
    requires
        s.decision(parent, name) is Some,
        world.exists == other_world.exists,
        world.realizable == other_world.realizable,
    ensures
        s.resolved(popcount, parent, name, world) == s.resolved(
            other_popcount,
            parent,
            name,
            other_world,
        ),
{
}

/// The candidates that are put to the prompt are those rows of the index
/// whose package is offered by itself, all of them and each as often as it
/// came, the most popular first. They are all directories or none of them
/// is, there is one at least, and the first is the one suggested. A list
/// that holds a directory beside a file or a link is never put to the
/// prompt: the resolver stops.
pub proof fn lemma_candidates_are_homogeneous(
    s: StateView,
    popcount: &Popcount,
    parent: u64,
    name: Seq<char>,
    rows: Seq<Candidate>,
)
    ensures
        s.index_answered(popcount, parent, name, rows).1 matches ActionView::Ask {
            candidates,
            suggested,
        } ==> {
            &&& candidates == ranked(popcount, toplevel_only(rows))
            &&& candidates.len() > 0
            &&& suggested == candidates[0]
            &&& homogeneous(candidates)
            &&& forall|i: int, j: int|
                0 <= i < candidates.len() && 0 <= j < candidates.len() ==> ((
                #[trigger] candidates[i]).1.node is Directory) == ((
                #[trigger] candidates[j]).1.node is Directory)
            &&& in_order(popcount, candidates)
            &&& candidates.to_multiset() == toplevel_only(rows).to_multiset()
            &&& forall|i: int|
                0 <= i < candidates.len() ==> rows.contains(#[trigger] candidates[i])
                    && candidates[i].0.origin.toplevel
        },
        toplevel_only(rows).len() > 0 && !homogeneous(toplevel_only(rows)) ==> s.index_answered(
            popcount,
            parent,
            name,
            rows,
        ) == (s, ActionView::Abort(Fatal::IndexCorruption)),
{
    let kept = toplevel_only(rows);
    lemma_ranked_members(popcount, kept);
    lemma_ranked(popcount, kept);
    lemma_toplevel_only(rows);
    let proposed = ranked(popcount, kept);
    assert forall|i: int| 0 <= i < proposed.len() implies rows.contains(#[trigger] proposed[i])
        && proposed[i].0.origin.toplevel by {
        assert(kept.contains(proposed[i]));
        let j = choose|j: int| 0 <= j < kept.len() && kept[j] == proposed[i];
        assert(rows.contains(kept[j]));
    }
    if homogeneous(proposed) {
        assert forall|i: int, j: int|
            0 <= i < proposed.len() && 0 <= j < proposed.len() implies ((
        #[trigger] proposed[i]).1.node is Directory) == ((
        #[trigger] proposed[j]).1.node is Directory) by {
            assert(file_or_symlink(proposed[i].1.node) != dir_like(proposed[i].1.node));
            assert(file_or_symlink(proposed[j].1.node) != dir_like(proposed[j].1.node));
        }
    }
}

/// What is put to the prompt depends on the rows of the index and on the
/// popularity alone: the same rows give the same candidates in the same
/// order, whenever and wherever they are asked for.
pub proof fn lemma_ranking_is_repeatable(
    first: StateView,
    second: StateView,
    popcount: &Popcount,
    parent: u64,
    name: Seq<char>,
    other_parent: u64,
    other_name: Seq<char>,
    rows: Seq<Candidate>,
)
    requires
        toplevel_only(rows).len() > 0,
    ensures
        first.index_answered(popcount, parent, name, rows).1 == second.index_answered(
            popcount,
            other_parent,
            other_name,
            rows,
        ).1,
{
}

/// A lookup that gets as far as the prompt and is answered with a package
/// records the package for the path and hands out, as a link under the
/// inode that was next, the file of that package. In automatic mode the
/// package is the one suggested, the most popular of the candidates. Only
/// where no inode is left, or the store path cannot be made real, does the
/// resolver stop instead.
pub proof fn lemma_cold_lookup(
    s: StateView,
    popcount: &Popcount,
    parent: u64,
    name: Seq<char>,
    world: World,
    chosen: StorePath,
)
    requires
        s.inv(),
        s.reaches_index(parent, name, world),
        toplevel_only(world.rows).len() > 0,
        homogeneous(toplevel_only(world.rows)),
        world.answer == Some(FsEventMessage::PackageSuggestion(chosen)),
    ensures
        ({
            let (after, outcome) = s.resolved(popcount, parent, name, world);
            let entry = ranked(popcount, toplevel_only(world.rows))[0].1;
            &&& after.decision(parent, name) == Some(
                DecisionView::Provide(StateView::provision(chosen@, entry)),
            )
            &&& after.db == s.db.insert(
                s.target(parent, name),
                ResolutionView::ConstantResolution(
                    ResolutionDataView {
                        requested_path: s.target(parent, name),
                        decision: DecisionView::Provide(StateView::provision(chosen@, entry)),
                    },
                ),
            )
            &&& after.recorded_enoent == s.recorded_enoent
            &&& outcome == if world.realizable && s.last_inode < u64::MAX {
                Outcome::Reply(link_reply(s.last_inode))
            } else {
                Outcome::Stopped
            }
            &&& outcome is Reply ==> {
                &&& after.last_inode == s.last_inode + 1
                &&& after.nix_paths == s.nix_paths.insert(
                    s.last_inode,
                    chosen@.joined(entry.path@),
                )
                &&& after.redirections == s.redirections
                &&& !after.redirections.contains_key(s.last_inode)
            }
        }),
{
    assert(!s.redirections.contains_key(s.last_inode));
}

/// A lookup of a path for which a package is recorded, be it from this
/// session or from the database that the mount started with, hands out the
/// recorded file of the recorded package as a link, under the inode that
/// was next, and leaves the database as it is. Neither the index nor the
/// prompt is asked: their answers do not count.
pub proof fn lemma_warm_lookup(
    s: StateView,
    popcount: &Popcount,
    parent: u64,
    name: Seq<char>,
    world: World,
    data: ProvideDataView,
)
    requires
        s.inv(),
        s.lookup(parent, name) is ProbeShadowTree,
        !world.exists,
        s.decision(parent, name) == Some(DecisionView::Provide(data)),
    ensures
        ({
            let (after, outcome) = s.resolved(popcount, parent, name, world);
            &&& after.db == s.db
            &&& after.recorded_enoent == s.recorded_enoent
            &&& outcome == if world.realizable && s.last_inode < u64::MAX {
                Outcome::Reply(link_reply(s.last_inode))
            } else {
                Outcome::Stopped
            }
            &&& outcome is Reply ==> {
                &&& after.last_inode == s.last_inode + 1
                &&& after.nix_paths == s.nix_paths.insert(
                    s.last_inode,
                    data.store_path.joined(data.file_entry_name),
                )
                &&& after.redirections == s.redirections
            }
        }),
{
}

/// What was chosen once is served from then on: after a lookup that ended
/// with the package that the user chose, every later lookup of the path
/// hands out the same file of the same package again, without asking the
/// index or the prompt, unless the shadow tree holds the path by then and
/// answers first.
pub proof fn lemma_choice_persists(
    s: StateView,
    popcount: &Popcount,
    parent: u64,
    name: Seq<char>,
    world: World,
    chosen: StorePath,
    later_popcount: &Popcount,
    later: World,
)
    requires
        s.inv(),
        s.reaches_index(parent, name, world),
        toplevel_only(world.rows).len() > 0,
        homogeneous(toplevel_only(world.rows)),
        world.answer == Some(FsEventMessage::PackageSuggestion(chosen)),
        world.realizable,
        s.last_inode < u64::MAX,
    ensures
        ({
            let (after, first) = s.resolved(popcount, parent, name, world);
            let (again, second) = after.resolved(later_popcount, parent, name, later);
            &&& first == Outcome::Reply(link_reply(s.last_inode))
            &&& again.db == after.db
            &&& later.exists && after.last_inode < u64::MAX ==> second == Outcome::Reply(
                link_reply(after.last_inode),
            ) && again.redirections == after.redirections.insert(
                after.last_inode,
                joined(s.fast_working_tree, s.target(parent, name)),
            )
            &&& !later.exists && later.realizable && after.last_inode < u64::MAX ==> second
                == Outcome::Reply(link_reply(after.last_inode)) && again.nix_paths
                == after.nix_paths.insert(after.last_inode, after.nix_paths[s.last_inode])
        }),
{
    lemma_cold_lookup(s, popcount, parent, name, world, chosen);
}

/// A path that the user declined, whether in this session or in an earlier
/// one, and a path that the index did not know are answered alike: with
/// the error that nothing is there, with no inode handed out and no table
/// changed, and without asking anybody. For a recorded decision this holds
/// where the shadow tree does not hold the path.
pub proof fn lemma_ignore_and_absence_agree(
    ignoring: StateView,
    remembering: StateView,
    popcount: &Popcount,
    parent: u64,
    name: Seq<char>,
    world: World,
)
    requires
        parent != ROOT_INODE,
        !ignoring.global_dirs.contains_key(ignoring.target(parent, name)),
        !remembering.global_dirs.contains_key(remembering.target(parent, name)),
        ignoring.decision(parent, name) == Some(DecisionView::Ignore),
        remembering.recorded_enoent.contains((parent, name)),
        !world.exists,
    ensures
        ignoring.resolved(popcount, parent, name, world) == (ignoring, nothing_there()),
        remembering.resolved(popcount, parent, name, world) == (remembering, nothing_there()),
        ignoring.shadow_probed(parent, name, false) == (ignoring, absent()),
        remembering.lookup(parent, name) == absent(),
{
}

/// A lookup that gets as far as the prompt and is declined, or finds the
/// prompt gone, ends with the error that nothing is there, records the
/// path as ignored and hands out no inode. From then on the same lookup is
/// answered at once, by the first step, with the same error, and changes
/// nothing: the index, the prompt and the store helper are not asked
/// again.
pub proof fn lemma_decline_persists(
    s: StateView,
    popcount: &Popcount,
    parent: u64,
    name: Seq<char>,
    world: World,
    later_popcount: &Popcount,
    later: World,
)
    requires
        s.inv(),
        s.reaches_index(parent, name, world),
        toplevel_only(world.rows).len() > 0,
        homogeneous(toplevel_only(world.rows)),
        !(world.answer matches Some(FsEventMessage::PackageSuggestion(_))),
    ensures
        ({
            let (after, first) = s.resolved(popcount, parent, name, world);
            &&& first == nothing_there()
            &&& after.same_inodes(s)
            &&& after.decision(parent, name) == Some(DecisionView::Ignore)
            &&& after.recorded_enoent == s.recorded_enoent.insert((parent, name))
            &&& after.lookup(parent, name) == absent()
            &&& after.resolved(later_popcount, parent, name, later) == (after, nothing_there())
        }),
{
}

/// What the index does not know is remembered for the session: the lookup
/// ends with the error that nothing is there, nothing is recorded and no
/// inode handed out, and the same lookup is answered at once from then on.
pub proof fn lemma_unknown_is_remembered(
    s: StateView,
    popcount: &Popcount,
    parent: u64,
    name: Seq<char>,
    world: World,
    later_popcount: &Popcount,
    later: World,
)
    requires
        s.inv(),
        s.reaches_index(parent, name, world),
        toplevel_only(world.rows).len() == 0,
    ensures
        ({
            let (after, first) = s.resolved(popcount, parent, name, world);
            &&& first == nothing_there()
            &&& after.same_inodes(s)
            &&& after.db == s.db
            &&& after.recorded_enoent == s.recorded_enoent.insert((parent, name))
            &&& after.resolved(later_popcount, parent, name, later) == (after, nothing_there())
        }),
{
}

} // verus!
