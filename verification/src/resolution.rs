//! Recorded decisions: what to answer for a path without asking again.

use vstd::prelude::*;
use vstd::string::*;
use crate::attr::FileType;
use crate::cache::{PathOrigin, PathOriginView, StorePath, StorePathView};
use crate::text::{
    key_lt, lemma_key_lt_irreflexive, lemma_key_lt_total, lemma_key_lt_transitive, str_eq, str_lt,
};

pub use crate::format::{
    db_to_human_toml, locate_resolution_db, read_resolution_db, ParseResolutionError,
};

verus! {

/// A package's file that is handed out for a path.
#[derive(Debug)]
pub struct ProvideData {
    pub kind: FileType,
    pub file_entry_name: String,
    pub store_path: StorePath,
}

/// What is provided, as plain values.
pub struct ProvideDataView {
    pub kind: FileType,
    pub file_entry_name: Seq<char>,
    pub store_path: StorePathView,
}

impl View for ProvideData {
    type V = ProvideDataView;

    open spec fn view(&self) -> ProvideDataView {
        ProvideDataView {
            kind: self.kind,
            file_entry_name: self.file_entry_name@,
            store_path: self.store_path@,
        }
    }
}

impl Clone for ProvideData {
    fn clone(&self) -> (r: Self)
        ensures
            r == *self,
    {
        ProvideData {
            kind: self.kind,
            file_entry_name: self.file_entry_name.clone(),
            store_path: self.store_path.clone(),
        }
    }
}

/// What is answered for a path.
#[derive(Debug)]
pub enum Decision {
    /// Provide this store path
    Provide(ProvideData),
    /// Report the path as absent
    Ignore,
}

/// A decision as plain values.
pub enum DecisionView {
    Provide(ProvideDataView),
    Ignore,
}

impl View for Decision {
    type V = DecisionView;

    open spec fn view(&self) -> DecisionView {
        match self {
            Decision::Provide(data) => DecisionView::Provide(data@),
            Decision::Ignore => DecisionView::Ignore,
        }
    }
}

impl Clone for Decision {
    fn clone(&self) -> (r: Self)
        ensures
            r == *self,
    {
        match self {
            Decision::Provide(data) => Decision::Provide(data.clone()),
            Decision::Ignore => Decision::Ignore,
        }
    }
}

/// A path with the decision taken for it.
#[derive(Debug)]
pub struct ResolutionData {
    pub requested_path: String,
    pub decision: Decision,
}

/// A path with its decision, as plain values.
pub struct ResolutionDataView {
    pub requested_path: Seq<char>,
    pub decision: DecisionView,
}

impl View for ResolutionData {
    type V = ResolutionDataView;

    open spec fn view(&self) -> ResolutionDataView {
        ResolutionDataView { requested_path: self.requested_path@, decision: self.decision@ }
    }
}

/// A resolution answers a question that would otherwise be put to the user.
#[derive(Debug)]
#[non_exhaustive]
pub enum Resolution {
    /// Constant resolution is always issued no matter the context.
    ConstantResolution(ResolutionData),
}

/// A resolution as plain values.
pub enum ResolutionView {
    ConstantResolution(ResolutionDataView),
}

impl View for Resolution {
    type V = ResolutionView;

    open spec fn view(&self) -> ResolutionView {
        match self {
            Resolution::ConstantResolution(data) => ResolutionView::ConstantResolution(data@),
        }
    }
}

impl Clone for Resolution {
    fn clone(&self) -> (r: Self)
        ensures
            r == *self,
    {
        match self {
            Resolution::ConstantResolution(data) => Resolution::ConstantResolution(
                ResolutionData {
                    requested_path: data.requested_path.clone(),
                    decision: data.decision.clone(),
                },
            ),
        }
    }
}

impl ResolutionView {
    /// The path that the resolution answers.
    pub open spec fn requested_path(self) -> Seq<char> {
        match self {
            ResolutionView::ConstantResolution(data) => data.requested_path,
        }
    }

    /// The decision that the resolution holds.
    pub open spec fn decision(self) -> DecisionView {
        match self {
            ResolutionView::ConstantResolution(data) => data.decision,
        }
    }
}

impl Resolution {
    /// The resolution that answers `requested_path` with `decision`.
    pub fn constant(requested_path: String, decision: Decision) -> (r: Self)
        ensures
            r == Resolution::ConstantResolution(ResolutionData { requested_path, decision }),
    {
        Resolution::ConstantResolution(ResolutionData { requested_path, decision })
    }

    /// The path that the resolution answers.
    pub open spec fn path(self) -> String {
        match self {
            Resolution::ConstantResolution(data) => data.requested_path,
        }
    }

    /// The decision that the resolution holds.
    pub open spec fn taken(self) -> Decision {
        match self {
            Resolution::ConstantResolution(data) => data.decision,
        }
    }

    /// The path that the resolution answers.
    pub fn requested_path(&self) -> (r: &String)
        ensures
            *r == self.path(),
            r@ == self@.requested_path(),
    {
        match self {
            Resolution::ConstantResolution(res_data) => &res_data.requested_path,
        }
    }

    /// The decision that the resolution holds.
    pub fn decision(&self) -> (r: &Decision)
        ensures
            *r == self.taken(),
            r@ == self@.decision(),
    {
        match self {
            Resolution::ConstantResolution(res_data) => &res_data.decision,
        }
    }
}

/// The path that a resolution answers.
pub open spec fn path_of(r: Resolution) -> Seq<char> {
    r@.requested_path()
}

/// A database as plain values: the resolutions by path.
pub type DbView = Map<Seq<char>, ResolutionView>;

/// Whether one of the resolutions answers `key`.
pub open spec fn has_key(entries: Seq<Resolution>, key: Seq<char>) -> bool {
    exists|i: int| 0 <= i < entries.len() && path_of(#[trigger] entries[i]) == key
}

/// The resolutions by the path that each answers.
pub open spec fn map_of(entries: Seq<Resolution>) -> DbView {
    Map::new(
        |key: Seq<char>| has_key(entries, key),
        |key: Seq<char>|
            entries[choose|i: int| 0 <= i < entries.len() && path_of(#[trigger] entries[i]) == key]@,
    )
}

/// The resolutions stand in the order of their paths, none twice.
pub open spec fn sorted(entries: Seq<Resolution>) -> bool {
    forall|i: int, j: int|
        0 <= i < j < entries.len() ==> key_lt(
            path_of(#[trigger] entries[i]),
            path_of(#[trigger] entries[j]),
        )
}

/// Each resolution is found under its path.
pub proof fn lemma_map_of_entry(entries: Seq<Resolution>, i: int)
    requires
        sorted(entries),
        0 <= i < entries.len(),
    ensures
        map_of(entries).contains_key(path_of(entries[i])),
        map_of(entries)[path_of(entries[i])] == entries[i]@,
{
    let key = path_of(entries[i]);
    let j = choose|j: int| 0 <= j < entries.len() && path_of(#[trigger] entries[j]) == key;
    lemma_key_lt_irreflexive(key);
    if j < i {
        assert(key_lt(path_of(entries[j]), path_of(entries[i])));
    } else if i < j {
        assert(key_lt(path_of(entries[i]), path_of(entries[j])));
    }
}

/// With one more resolution at the end, the map has one more entry.
pub proof fn lemma_map_of_take(entries: Seq<Resolution>, i: int)
    requires
        sorted(entries),
        0 <= i < entries.len(),
    ensures
        map_of(entries.take(i + 1)) == map_of(entries.take(i)).insert(
            path_of(entries[i]),
            entries[i]@,
        ),
{
    let a = entries.take(i + 1);
    let b = entries.take(i);
    let key = path_of(entries[i]);
    assert(sorted(a));
    assert(sorted(b));
    assert(a[i] == entries[i]);
    lemma_map_of_entry(a, i);
    assert forall|k: Seq<char>| map_of(a).contains_key(k) <==> (k == key || map_of(b).contains_key(
        k,
    )) by {
        if map_of(a).contains_key(k) {
            let j = choose|j: int| 0 <= j < a.len() && path_of(#[trigger] a[j]) == k;
            if j < i {
                assert(path_of(b[j]) == k);
            }
        }
        if map_of(b).contains_key(k) {
            let j = choose|j: int| 0 <= j < b.len() && path_of(#[trigger] b[j]) == k;
            assert(path_of(a[j]) == k);
        }
    }
    assert forall|k: Seq<char>| map_of(b).contains_key(k) && k != key implies map_of(a)[k]
        == map_of(b)[k] by {
        let j = choose|j: int| 0 <= j < b.len() && path_of(#[trigger] b[j]) == k;
        lemma_map_of_entry(b, j);
        assert(a[j] == b[j]);
        lemma_map_of_entry(a, j);
    }
    assert(map_of(a) =~= map_of(b).insert(key, entries[i]@));
}

/// The recorded resolutions, each under the path it answers, in the order of
/// the paths.
#[derive(Debug)]
pub struct ResolutionDB {
    pub entries: Vec<Resolution>,
}

impl View for ResolutionDB {
    type V = DbView;

    open spec fn view(&self) -> DbView {
        map_of(self.entries@)
    }
}

/// One database over another: where both answer a path, `right` wins.
pub open spec fn merged(left: DbView, right: DbView) -> DbView {
    left.union_prefer_right(right)
}

impl ResolutionDB {
    /// Every path is answered once, and the paths stand in order.
    pub open spec fn wf(&self) -> bool {
        sorted(self.entries@)
    }

    /// The database in which nothing is recorded.
    pub fn new() -> (db: Self)
        ensures
            db.wf(),
            db@ == Map::<Seq<char>, ResolutionView>::empty(),
    {
        let db = ResolutionDB { entries: Vec::new() };
        assert(db@ =~= Map::<Seq<char>, ResolutionView>::empty());
        db
    }

    /// Whether nothing is recorded.
    pub fn is_empty(&self) -> (r: bool)
        requires
            self.wf(),
        ensures
            r == (self@ == Map::<Seq<char>, ResolutionView>::empty()),
    {
        if self.entries.len() == 0 {
            assert(self@ =~= Map::<Seq<char>, ResolutionView>::empty());
            true
        } else {
            proof {
                lemma_map_of_entry(self.entries@, 0);
            }
            false
        }
    }

    /// The index of the first resolution whose path is not before `key`.
    fn position(&self, key: &str) -> (i: usize)
        requires
            self.wf(),
        ensures
            i <= self.entries.len(),
            forall|j: int| 0 <= j < i ==> key_lt(path_of(#[trigger] self.entries[j]), key@),
            i < self.entries.len() ==> !key_lt(path_of(self.entries[i as int]), key@),
    {
        let mut i: usize = 0;
        while i < self.entries.len()
            invariant
                i <= self.entries.len(),
                forall|j: int| 0 <= j < i ==> key_lt(path_of(#[trigger] self.entries[j]), key@),
            decreases self.entries.len() - i,
        {
            if !str_lt(self.entries[i].requested_path().as_str(), key) {
                return i;
            }
            i = i + 1;
        }
        i
    }

    /// Nothing at or after `i` answers `key` unless the resolution at `i` does.
    proof fn lemma_position(&self, key: Seq<char>, i: int)
        requires
            self.wf(),
            0 <= i <= self.entries.len(),
            forall|j: int| 0 <= j < i ==> key_lt(path_of(#[trigger] self.entries[j]), key),
            i < self.entries.len() ==> !key_lt(path_of(self.entries[i]), key),
        ensures
            forall|j: int|
                0 <= j < self.entries.len() && j != i ==> path_of(#[trigger] self.entries[j])
                    != key,
            i < self.entries.len() && path_of(self.entries[i]) != key ==> key_lt(
                key,
                path_of(self.entries[i]),
            ),
            forall|j: int|
                i < j < self.entries.len() ==> key_lt(key, path_of(#[trigger] self.entries[j])),
    {
        lemma_key_lt_irreflexive(key);
        if i < self.entries.len() {
            let at = path_of(self.entries[i]);
            if at != key {
                if !key_lt(key, at) {
                    lemma_key_lt_total(key, at);
                }
            }
            assert forall|j: int| i < j < self.entries.len() implies key_lt(
                key,
                path_of(#[trigger] self.entries[j]),
            ) by {
                let later = path_of(self.entries[j]);
                assert(key_lt(at, later));
                if at != key {
                    lemma_key_lt_transitive(key, at, later);
                }
            }
        }
    }

    /// The resolution recorded for `key`.
    pub fn get(&self, key: &str) -> (r: Option<&Resolution>)
        requires
            self.wf(),
        ensures
            match r {
                Some(found) => self@.contains_key(key@) && self@[key@] == found@,
                None => !self@.contains_key(key@),
            },
    {
        let i = self.position(key);
        proof {
            self.lemma_position(key@, i as int);
        }
        if i < self.entries.len() && str_eq(self.entries[i].requested_path().as_str(), key) {
            proof {
                lemma_map_of_entry(self.entries@, i as int);
            }
            Some(&self.entries[i])
        } else {
            None
        }
    }

    /// Records `resolution` under the path that it answers, in place of what
    /// was recorded for that path.
    pub fn insert(&mut self, resolution: Resolution)
        requires
            old(self).wf(),
        ensures
            final(self).wf(),
            final(self)@ == old(self)@.insert(path_of(resolution), resolution@),
    {
        let i = self.position(resolution.requested_path().as_str());
        let ghost key = path_of(resolution);
        let ghost before = self.entries@;
        proof {
            self.lemma_position(key, i as int);
        }
        if i < self.entries.len() && str_eq(
            self.entries[i].requested_path().as_str(),
            resolution.requested_path().as_str(),
        ) {
            self.entries.set(i, resolution);
        } else {
            self.entries.insert(i, resolution);
        }
        proof {
            let after = self.entries@;
            assert(sorted(after)) by {
                assert forall|a: int, b: int| 0 <= a < b < after.len() implies key_lt(
                    path_of(#[trigger] after[a]),
                    path_of(#[trigger] after[b]),
                ) by {
                    if after.len() == before.len() {
                        if a != i {
                            assert(after[a] == before[a]);
                        }
                        if b != i {
                            assert(after[b] == before[b]);
                        }
                    } else {
                        let oa = if a < i { a } else { a - 1 };
                        let ob = if b < i { b } else { b - 1 };
                        if a != i {
                            assert(after[a] == before[oa]);
                        }
                        if b != i {
                            assert(after[b] == before[ob]);
                        }
                    }
                }
            }
            lemma_insert_view(before, after, resolution, i as int);
        }
    }

    /// The store paths of the paths that are provided, in the order of the
    /// paths.
    pub fn provided_store_paths(&self) -> (r: Vec<StorePath>)
        ensures
            r@ == provided(self.entries@),
    {
        let mut r: Vec<StorePath> = Vec::new();
        let mut i: usize = 0;
        while i < self.entries.len()
            invariant
                i <= self.entries.len(),
                r@ == provided(self.entries@.take(i as int)),
            decreases self.entries.len() - i,
        {
            proof {
                assert(self.entries@.take(i + 1).drop_last() =~= self.entries@.take(i as int));
                assert(self.entries@.take(i + 1).last() == self.entries@[i as int]);
            }
            match self.entries[i].decision() {
                Decision::Provide(data) => {
                    r.push(data.store_path.clone());
                },
                Decision::Ignore => {},
            }
            i = i + 1;
        }
        proof {
            assert(self.entries@.take(i as int) =~= self.entries@);
        }
        r
    }

    /// The paths that are reported as absent, in order.
    pub fn ignored_paths(&self) -> (r: Vec<String>)
        ensures
            r@ == ignored(self.entries@),
    {
        let mut r: Vec<String> = Vec::new();
        let mut i: usize = 0;
        while i < self.entries.len()
            invariant
                i <= self.entries.len(),
                r@ == ignored(self.entries@.take(i as int)),
            decreases self.entries.len() - i,
        {
            proof {
                assert(self.entries@.take(i + 1).drop_last() =~= self.entries@.take(i as int));
                assert(self.entries@.take(i + 1).last() == self.entries@[i as int]);
            }
            match self.entries[i].decision() {
                Decision::Provide(_) => {},
                Decision::Ignore => {
                    r.push(self.entries[i].requested_path().clone());
                },
            }
            i = i + 1;
        }
        proof {
            assert(self.entries@.take(i as int) =~= self.entries@);
        }
        r
    }
}

/// The store paths of those resolutions that provide one, in their order.
pub open spec fn provided(entries: Seq<Resolution>) -> Seq<StorePath>
    decreases entries.len(),
{
    if entries.len() == 0 {
        Seq::empty()
    } else {
        match entries.last().taken() {
            Decision::Provide(data) => provided(entries.drop_last()).push(data.store_path),
            Decision::Ignore => provided(entries.drop_last()),
        }
    }
}

/// The paths of those resolutions that ignore theirs, in their order.
pub open spec fn ignored(entries: Seq<Resolution>) -> Seq<String>
    decreases entries.len(),
{
    if entries.len() == 0 {
        Seq::empty()
    } else {
        match entries.last().taken() {
            Decision::Provide(_) => ignored(entries.drop_last()),
            Decision::Ignore => ignored(entries.drop_last()).push(entries.last().path()),
        }
    }
}

/// What an insertion at `i`, or a replacement there, does to the map.
proof fn lemma_insert_view(
    before: Seq<Resolution>,
    after: Seq<Resolution>,
    resolution: Resolution,
    i: int,
)
    requires
        sorted(before),
        sorted(after),
        0 <= i <= before.len(),
        forall|j: int|
            0 <= j < before.len() && j != i ==> path_of(#[trigger] before[j]) != path_of(
                resolution,
            ),
        (i < before.len() && path_of(before[i]) == path_of(resolution) && after
            == before.update(i, resolution)) || ((i == before.len() || path_of(before[i])
            != path_of(resolution)) && after == before.insert(i, resolution)),
    ensures
        map_of(after) == map_of(before).insert(path_of(resolution), resolution@),
{
    let key = path_of(resolution);
    let target = map_of(before).insert(key, resolution@);
    let replaced = after.len() == before.len();
    assert(after[i] == resolution);
    lemma_map_of_entry(after, i);
    assert forall|k: Seq<char>| map_of(after).contains_key(k) <==> target.contains_key(k) by {
        if map_of(after).contains_key(k) && k != key {
            let j = choose|j: int| 0 <= j < after.len() && path_of(#[trigger] after[j]) == k;
            let oj = if replaced || j < i { j } else { j - 1 };
            assert(after[j] == before[oj]);
            assert(path_of(before[oj]) == k);
        }
        if map_of(before).contains_key(k) && k != key {
            let j = choose|j: int| 0 <= j < before.len() && path_of(#[trigger] before[j]) == k;
            let nj = if replaced || j < i { j } else { j + 1 };
            assert(after[nj] == before[j]);
            assert(path_of(after[nj]) == k);
        }
    }
    assert forall|k: Seq<char>| target.contains_key(k) implies map_of(after)[k] == target[k] by {
        if k != key {
            let j = choose|j: int| 0 <= j < before.len() && path_of(#[trigger] before[j]) == k;
            let nj = if replaced || j < i { j } else { j + 1 };
            assert(after[nj] == before[j]);
            lemma_map_of_entry(before, j);
            lemma_map_of_entry(after, nj);
        }
    }
    assert(map_of(after) =~= target);
}

/// Records in `db` every resolution of `right`, in place of what `db` held
/// for the same path.
pub fn merge_into(db: &mut ResolutionDB, right: &ResolutionDB)
    requires
        old(db).wf(),
        right.wf(),
    ensures
        final(db).wf(),
        final(db)@ == merged(old(db)@, right@),
{
    let ghost start = db@;
    let mut i: usize = 0;
    assert(map_of(right.entries@.take(0)) =~= Map::<Seq<char>, ResolutionView>::empty());
    assert(merged(start, Map::<Seq<char>, ResolutionView>::empty()) =~= start);
    while i < right.entries.len()
        invariant
            i <= right.entries.len(),
            db.wf(),
            right.wf(),
            db@ == merged(start, map_of(right.entries@.take(i as int))),
        decreases right.entries.len() - i,
    {
        let resolution = right.entries[i].clone();
        proof {
            lemma_map_of_take(right.entries@, i as int);
            let so_far = map_of(right.entries@.take(i as int));
            assert(merged(start, so_far.insert(path_of(resolution), resolution@)) =~= merged(
                start,
                so_far,
            ).insert(path_of(resolution), resolution@));
        }
        db.insert(resolution);
        i = i + 1;
    }
    assert(right.entries@.take(i as int) =~= right.entries@);
}

/// Unify two set of resolutions, right taking priority over left.
pub fn merge_resolution_db(left: ResolutionDB, right: ResolutionDB) -> (db: ResolutionDB)
    requires
        left.wf(),
        right.wf(),
    ensures
        db.wf(),
        db@ == merged(left@, right@),
{
    let mut db = left;
    merge_into(&mut db, &right);
    db
}

/// The databases of the sources that are there, each over those before it.
pub open spec fn composed(sources: Seq<Option<ResolutionDB>>) -> DbView
    decreases sources.len(),
{
    if sources.len() == 0 {
        Map::empty()
    } else {
        match sources.last() {
            Some(db) => merged(composed(sources.drop_last()), db@),
            None => composed(sources.drop_last()),
        }
    }
}

/// Composes the databases of several sources, given from the lowest
/// priority to the highest. A source that is absent is skipped.
pub fn compose_resolution_dbs(sources: &Vec<Option<ResolutionDB>>) -> (db: ResolutionDB)
    requires
        forall|i: int| 0 <= i < sources.len() ==> (#[trigger] sources[i] matches Some(s) ==> s.wf()),
    ensures
        db.wf(),
        db@ == composed(sources@),
{
    let mut db = ResolutionDB::new();
    let mut i: usize = 0;
    assert(sources@.take(0) =~= Seq::<Option<ResolutionDB>>::empty());
    while i < sources.len()
        invariant
            i <= sources.len(),
            db.wf(),
            db@ == composed(sources@.take(i as int)),
            forall|i: int|
                0 <= i < sources.len() ==> (#[trigger] sources[i] matches Some(s) ==> s.wf()),
        decreases sources.len() - i,
    {
        proof {
            assert(sources@.take(i + 1).drop_last() =~= sources@.take(i as int));
            assert(sources@.take(i + 1).last() == sources@[i as int]);
        }
        match &sources[i] {
            Some(source) => {
                merge_into(&mut db, source);
            },
            None => {},
        }
        i = i + 1;
    }
    assert(sources@.take(i as int) =~= sources@);
    db
}

/// Merging with nothing on the right changes nothing.
pub proof fn lemma_merge_empty_right(a: DbView)
    ensures
        merged(a, Map::empty()) == a,
{
    assert(merged(a, Map::empty()) =~= a);
}

/// Merging with nothing on the left gives the right.
pub proof fn lemma_merge_empty_left(b: DbView)
    ensures
        merged(Map::empty(), b) == b,
{
    assert(merged(Map::empty(), b) =~= b);
}

/// Merging three databases gives the same whichever two are merged first.
pub proof fn lemma_merge_associative(a: DbView, b: DbView, c: DbView)
    ensures
        merged(merged(a, b), c) == merged(a, merged(b, c)),
{
    assert(merged(merged(a, b), c) =~= merged(a, merged(b, c)));
}

/// Where both sides answer a path, the merge answers as the right does;
/// where only one does, as that one.
pub proof fn lemma_merge_right_bias(a: DbView, b: DbView, key: Seq<char>)
    ensures
        merged(a, b).contains_key(key) == (a.contains_key(key) || b.contains_key(key)),
        b.contains_key(key) ==> merged(a, b)[key] == b[key],
        a.contains_key(key) && !b.contains_key(key) ==> merged(a, b)[key] == a[key],
{
}

} // verus!
