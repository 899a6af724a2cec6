//! The textual form of the recorded resolutions: a table keyed by path, one
//! table of fields for each.

use vstd::prelude::*;
use vstd::string::*;
use crate::attr::FileType;
use crate::cache::{PathOrigin, PathOriginView, StorePath, StorePathView};
use crate::document::{
    field_at, get_field, is_text, lemma_field_at, parse_document, parsed_document,
    render_document, rendered_document, Field, Toml,
};
use crate::resolution::{
    lemma_map_of_entry, path_of, DbView, Decision, DecisionView, ProvideData, ProvideDataView,
    Resolution, ResolutionDB, ResolutionData, ResolutionDataView, ResolutionView,
};
use crate::text::{
    ends_with, has_suffix, join_path, join_text, joined, key_lt, lemma_key_lt_irreflexive, str_eq,
};

verus! {

/// Why a document is no database of resolutions.
#[derive(Debug)]
pub enum ParseResolutionError {
    /// missing field `{0}`
    MissingField(String),
    /// expected type `{0}` for field `{1}`
    UnexpectedType(String, String),
}

/// An error as plain values.
pub enum ParseErrorView {
    MissingField(Seq<char>),
    UnexpectedType(Seq<char>, Seq<char>),
}

impl View for ParseResolutionError {
    type V = ParseErrorView;

    open spec fn view(&self) -> ParseErrorView {
        match self {
            ParseResolutionError::MissingField(name) => ParseErrorView::MissingField(name@),
            ParseResolutionError::UnexpectedType(expected, name) => ParseErrorView::UnexpectedType(
                expected@,
                name@,
            ),
        }
    }
}

impl ParseErrorView {
    /// The error in words.
    pub open spec fn message(self) -> Seq<char> {
        match self {
            ParseErrorView::MissingField(name) => "missing field `"@ + name + "`"@,
            ParseErrorView::UnexpectedType(expected, name) => "expected type `"@ + expected
                + "` for field `"@ + name + "`"@,
        }
    }
}

impl ParseResolutionError {
    /// The error in words.
    pub fn to_string(&self) -> (r: String)
        ensures
            r@ == self@.message(),
    {
        match self {
            ParseResolutionError::MissingField(name) => {
                let mut r = join_text("missing field `", name.as_str());
                r.append("`");
                r
            },
            ParseResolutionError::UnexpectedType(expected, name) => {
                let mut r = join_text("expected type `", expected.as_str());
                r.append("` for field `");
                r.append(name.as_str());
                r.append("`");
                r
            },
        }
    }
}

/// What reading gives: the value, or why there is none.
pub type Parsed<T> = Result<T, ParseErrorView>;

/// A result and what it should be, up to the text that strings hold.
pub open spec fn agrees<T: View>(r: Result<T, ParseResolutionError>, s: Parsed<T::V>) -> bool {
    match (r, s) {
        (Ok(v), Ok(w)) => v@ == w,
        (Err(e), Err(f)) => e@ == f,
        _ => false,
    }
}

fn missing<T>(name: &str) -> (r: Result<T, ParseResolutionError>)
    ensures
        r matches Err(e) && e@ == ParseErrorView::MissingField(name@),
{
    Err(ParseResolutionError::MissingField(String::from_str(name)))
}

fn unexpected<T>(expected: &str, name: &str) -> (r: Result<T, ParseResolutionError>)
    ensures
        r matches Err(e) && e@ == ParseErrorView::UnexpectedType(expected@, name@),
{
    Err(ParseResolutionError::UnexpectedType(String::from_str(expected), String::from_str(name)))
}

/// The text under `name`, which must be there.
pub open spec fn text_field(t: Seq<Field>, name: Seq<char>) -> Parsed<Seq<char>> {
    match field_at(t, name) {
        Some(Toml::Text(s)) => Ok(s@),
        None => Err(ParseErrorView::MissingField(name)),
        Some(_) => Err(ParseErrorView::UnexpectedType("string"@, name)),
    }
}

/// The text under `name`, if a field of that name is there.
pub open spec fn optional_text_field(t: Seq<Field>, name: Seq<char>) -> Parsed<Option<Seq<char>>> {
    match field_at(t, name) {
        Some(Toml::Text(s)) => Ok(Some(s@)),
        None => Ok(None),
        Some(_) => Err(ParseErrorView::UnexpectedType("string"@, name)),
    }
}

/// The truth value under `name`, which must be there.
pub open spec fn bool_field(t: Seq<Field>, name: Seq<char>) -> Parsed<bool> {
    match field_at(t, name) {
        Some(Toml::Boolean(b)) => Ok(b),
        None => Err(ParseErrorView::MissingField(name)),
        Some(_) => Err(ParseErrorView::UnexpectedType("boolean"@, name)),
    }
}

/// The table under `name`, which must be there.
pub open spec fn table_field(t: Seq<Field>, name: Seq<char>) -> Parsed<Seq<Field>> {
    match field_at(t, name) {
        Some(Toml::Table(fields)) => Ok(fields@),
        None => Err(ParseErrorView::MissingField(name)),
        Some(_) => Err(ParseErrorView::UnexpectedType("table"@, name)),
    }
}

/// The name under which a kind of file is written.
pub open spec fn kind_name(kind: FileType) -> Seq<char> {
    match kind {
        FileType::Socket => "socket"@,
        FileType::Symlink => "symlink"@,
        FileType::NamedPipe => "named-pipe"@,
        FileType::Directory => "directory"@,
        FileType::CharDevice => "char-device"@,
        FileType::BlockDevice => "block-device"@,
        FileType::RegularFile => "regular-file"@,
    }
}

/// The kind of file that a name stands for.
pub open spec fn kind_of_name(name: Seq<char>) -> Option<FileType> {
    if name == "socket"@ {
        Some(FileType::Socket)
    } else if name == "symlink"@ {
        Some(FileType::Symlink)
    } else if name == "named-pipe"@ {
        Some(FileType::NamedPipe)
    } else if name == "directory"@ {
        Some(FileType::Directory)
    } else if name == "char-device"@ {
        Some(FileType::CharDevice)
    } else if name == "block-device"@ {
        Some(FileType::BlockDevice)
    } else if name == "regular-file"@ {
        Some(FileType::RegularFile)
    } else {
        None
    }
}

/// The kind of the file that is provided.
pub open spec fn kind_field(t: Seq<Field>) -> Parsed<FileType> {
    match text_field(t, "kind"@) {
        Ok(name) => match kind_of_name(name) {
            Some(kind) => Ok(kind),
            None => Err(ParseErrorView::UnexpectedType("fuser::FileType"@, "kind"@)),
        },
        Err(e) => Err(e),
    }
}

/// The origin that a table of fields describes.
pub open spec fn origin_of(t: Seq<Field>) -> Parsed<PathOriginView> {
    match text_field(t, "attr"@) {
        Err(e) => Err(e),
        Ok(attr) => match text_field(t, "output"@) {
            Err(e) => Err(e),
            Ok(output) => match bool_field(t, "toplevel"@) {
                Err(e) => Err(e),
                Ok(toplevel) => match optional_text_field(t, "system"@) {
                    Err(e) => Err(e),
                    Ok(system) => Ok(PathOriginView { attr, output, toplevel, system }),
                },
            },
        },
    }
}

/// The store path that a table of fields describes.
pub open spec fn store_path_of(t: Seq<Field>) -> Parsed<StorePathView> {
    match text_field(t, "store_dir"@) {
        Err(e) => Err(e),
        Ok(store_dir) => match text_field(t, "hash"@) {
            Err(e) => Err(e),
            Ok(hash) => match text_field(t, "name"@) {
                Err(e) => Err(e),
                Ok(name) => match table_field(t, "origin"@) {
                    Err(e) => Err(e),
                    Ok(o) => match origin_of(o) {
                        Err(e) => Err(e),
                        Ok(origin) => Ok(StorePathView { store_dir, hash, name, origin }),
                    },
                },
            },
        },
    }
}

/// What the fields of a `provide` entry say is provided.
pub open spec fn provide_of(t: Seq<Field>) -> Parsed<ProvideDataView> {
    match kind_field(t) {
        Err(e) => Err(e),
        Ok(kind) => match text_field(t, "file_entry_name"@) {
            Err(e) => Err(e),
            Ok(file_entry_name) => match table_field(t, "store_path"@) {
                Err(e) => Err(e),
                Ok(sp) => match store_path_of(sp) {
                    Err(e) => Err(e),
                    Ok(store_path) => Ok(ProvideDataView { kind, file_entry_name, store_path }),
                },
            },
        },
    }
}

/// The decision that the fields of an entry state.
pub open spec fn decision_of(t: Seq<Field>) -> Parsed<DecisionView> {
    match field_at(t, "decision"@) {
        Some(Toml::Text(choice)) => if choice@ == "ignore"@ {
            Ok(DecisionView::Ignore)
        } else if choice@ == "provide"@ {
            match provide_of(t) {
                Ok(data) => Ok(DecisionView::Provide(data)),
                Err(e) => Err(e),
            }
        } else {
            Err(ParseErrorView::UnexpectedType("`ignore` or `provide`"@, "decision"@))
        },
        None => Err(ParseErrorView::MissingField("decision"@)),
        Some(_) => Err(ParseErrorView::UnexpectedType("`ignore` or `provide`"@, "decision"@)),
    }
}

/// The resolution that one entry of the document states for its key.
pub open spec fn item_of(item: Field) -> Parsed<ResolutionView> {
    match item.value {
        Toml::Table(t) => match decision_of(t@) {
            Ok(decision) => Ok(
                ResolutionView::ConstantResolution(
                    ResolutionDataView { requested_path: item.key@, decision },
                ),
            ),
            Err(e) => Err(e),
        },
        _ => Err(ParseErrorView::UnexpectedType("a table"@, item.key@)),
    }
}

/// The database that the entries state, or the error of the first entry
/// that states none.
pub open spec fn entries_of(items: Seq<Field>) -> Parsed<DbView>
    decreases items.len(),
{
    if items.len() == 0 {
        Ok(Map::empty())
    } else {
        match entries_of(items.drop_last()) {
            Err(e) => Err(e),
            Ok(db) => match item_of(items.last()) {
                Err(e) => Err(e),
                Ok(resolution) => Ok(db.insert(items.last().key@, resolution)),
            },
        }
    }
}

/// The database that a document states.
pub open spec fn db_of_document(doc: Toml) -> Parsed<DbView> {
    match doc {
        Toml::Table(items) => entries_of(items@),
        _ => Err(ParseErrorView::UnexpectedType("an array of table"@, "the whole document"@)),
    }
}

fn read_text(t: &Vec<Field>, name: &str) -> (r: Result<String, ParseResolutionError>)
    ensures
        agrees(r, text_field(t@, name@)),
{
    match get_field(t, name) {
        Some(Toml::Text(s)) => Ok(s.clone()),
        None => missing(name),
        Some(_) => unexpected("string", name),
    }
}

fn read_optional_text(t: &Vec<Field>, name: &str) -> (r: Result<
    Option<String>,
    ParseResolutionError,
>)
    ensures
        match (r, optional_text_field(t@, name@)) {
            (Ok(Some(s)), Ok(Some(w))) => s@ == w,
            (Ok(None), Ok(None)) => true,
            (Err(e), Err(f)) => e@ == f,
            _ => false,
        },
{
    match get_field(t, name) {
        Some(Toml::Text(s)) => Ok(Some(s.clone())),
        None => Ok(None),
        Some(_) => unexpected("string", name),
    }
}

fn read_bool(t: &Vec<Field>, name: &str) -> (r: Result<bool, ParseResolutionError>)
    ensures
        match (r, bool_field(t@, name@)) {
            (Ok(b), Ok(w)) => b == w,
            (Err(e), Err(f)) => e@ == f,
            _ => false,
        },
{
    match get_field(t, name) {
        Some(Toml::Boolean(b)) => Ok(*b),
        None => missing(name),
        Some(_) => unexpected("boolean", name),
    }
}

fn read_table<'a>(t: &'a Vec<Field>, name: &str) -> (r: Result<
    &'a Vec<Field>,
    ParseResolutionError,
>)
    ensures
        match (r, table_field(t@, name@)) {
            (Ok(fields), Ok(w)) => fields@ == w,
            (Err(e), Err(f)) => e@ == f,
            _ => false,
        },
{
    match get_field(t, name) {
        Some(Toml::Table(fields)) => Ok(fields),
        None => missing(name),
        Some(_) => unexpected("table", name),
    }
}

/// The kind of file that `v` names.
pub fn parse_filetype_kind(v: &str) -> (r: Result<FileType, ParseResolutionError>)
    ensures
        match r {
            Ok(kind) => kind_of_name(v@) == Some(kind),
            Err(e) => kind_of_name(v@) is None && e@ == ParseErrorView::UnexpectedType(
                "fuser::FileType"@,
                "kind"@,
            ),
        },
{
    if str_eq(v, "socket") {
        Ok(FileType::Socket)
    } else if str_eq(v, "symlink") {
        Ok(FileType::Symlink)
    } else if str_eq(v, "named-pipe") {
        Ok(FileType::NamedPipe)
    } else if str_eq(v, "directory") {
        Ok(FileType::Directory)
    } else if str_eq(v, "char-device") {
        Ok(FileType::CharDevice)
    } else if str_eq(v, "block-device") {
        Ok(FileType::BlockDevice)
    } else if str_eq(v, "regular-file") {
        Ok(FileType::RegularFile)
    } else {
        unexpected("fuser::FileType", "kind")
    }
}

impl PathOrigin {
    /// Reads an origin from the fields of its table.
    pub fn from_toml(data: &Vec<Field>) -> (r: Result<Self, ParseResolutionError>)
        ensures
            agrees(r, origin_of(data@)),
    {
        let attr = match read_text(data, "attr") {
            Ok(v) => v,
            Err(e) => return Err(e),
        };
        let output = match read_text(data, "output") {
            Ok(v) => v,
            Err(e) => return Err(e),
        };
        let toplevel = match read_bool(data, "toplevel") {
            Ok(v) => v,
            Err(e) => return Err(e),
        };
        let system = match read_optional_text(data, "system") {
            Ok(v) => v,
            Err(e) => return Err(e),
        };
        Ok(PathOrigin { attr, output, toplevel, system })
    }
}

impl StorePath {
    /// Reads a store path from the fields of its table.
    pub fn from_toml(data: &Vec<Field>) -> (r: Result<Self, ParseResolutionError>)
        ensures
            agrees(r, store_path_of(data@)),
    {
        let store_dir = match read_text(data, "store_dir") {
            Ok(v) => v,
            Err(e) => return Err(e),
        };
        let hash = match read_text(data, "hash") {
            Ok(v) => v,
            Err(e) => return Err(e),
        };
        let name = match read_text(data, "name") {
            Ok(v) => v,
            Err(e) => return Err(e),
        };
        let origin = match read_table(data, "origin") {
            Ok(fields) => match PathOrigin::from_toml(fields) {
                Ok(v) => v,
                Err(e) => return Err(e),
            },
            Err(e) => return Err(e),
        };
        Ok(StorePath { store_dir, hash, name, origin })
    }
}

impl ProvideData {
    /// Reads what is provided from the fields of a `provide` entry.
    pub fn from_toml(data: &Vec<Field>) -> (r: Result<Self, ParseResolutionError>)
        ensures
            agrees(r, provide_of(data@)),
    {
        let kind = match read_text(data, "kind") {
            Ok(v) => match parse_filetype_kind(v.as_str()) {
                Ok(kind) => kind,
                Err(e) => return Err(e),
            },
            Err(e) => return Err(e),
        };
        let file_entry_name = match read_text(data, "file_entry_name") {
            Ok(v) => v,
            Err(e) => return Err(e),
        };
        let store_path = match read_table(data, "store_path") {
            Ok(fields) => match StorePath::from_toml(fields) {
                Ok(v) => v,
                Err(e) => return Err(e),
            },
            Err(e) => return Err(e),
        };
        Ok(ProvideData { kind, file_entry_name, store_path })
    }
}

impl Decision {
    /// Reads the decision that the fields of an entry state.
    pub fn from_toml(decision: &Vec<Field>) -> (r: Result<Self, ParseResolutionError>)
        ensures
            agrees(r, decision_of(decision@)),
    {
        match get_field(decision, "decision") {
            Some(Toml::Text(decision_choice)) => {
                if str_eq(decision_choice.as_str(), "ignore") {
                    Ok(Decision::Ignore)
                } else if str_eq(decision_choice.as_str(), "provide") {
                    match ProvideData::from_toml(decision) {
                        Ok(data) => Ok(Decision::Provide(data)),
                        Err(e) => Err(e),
                    }
                } else {
                    unexpected("`ignore` or `provide`", "decision")
                }
            },
            None => missing("decision"),
            Some(_) => unexpected("`ignore` or `provide`", "decision"),
        }
    }
}

impl Resolution {
    /// Reads the resolution that one entry of a document states for its key.
    pub fn from_toml_item(resolution: &Field) -> (r: Result<Self, ParseResolutionError>)
        ensures
            agrees(r, item_of(*resolution)),
    {
        match &resolution.value {
            Toml::Table(table) => match Decision::from_toml(table) {
                Ok(decision) => Ok(
                    Resolution::ConstantResolution(
                        ResolutionData { requested_path: resolution.key.clone(), decision },
                    ),
                ),
                Err(e) => Err(e),
            },
            _ => unexpected("a table", resolution.key.as_str()),
        }
    }

    /// Reads a database from a document: a table with one entry for each
    /// path. The first entry that states no resolution gives the error.
    pub fn from_toml(resolutions: &Toml) -> (r: Result<ResolutionDB, ParseResolutionError>)
        ensures
            agrees(r, db_of_document(*resolutions)),
            r matches Ok(db) ==> db.wf(),
    {
        match resolutions {
            Toml::Table(resolutions_map) => {
                let mut db = ResolutionDB::new();
                let mut i: usize = 0;
                assert(resolutions_map@.take(0) =~= Seq::<Field>::empty());
                while i < resolutions_map.len()
                    invariant
                        i <= resolutions_map.len(),
                        *resolutions == Toml::Table(*resolutions_map),
                        db.wf(),
                        entries_of(resolutions_map@.take(i as int)) == Ok::<
                            DbView,
                            ParseErrorView,
                        >(db@),
                    decreases resolutions_map.len() - i,
                {
                    proof {
                        let next = resolutions_map@.take(i + 1);
                        assert(next.drop_last() =~= resolutions_map@.take(i as int));
                        assert(next.last() == resolutions_map@[i as int]);
                    }
                    match Resolution::from_toml_item(&resolutions_map[i]) {
                        Ok(resolution) => {
                            db.insert(resolution);
                        },
                        Err(e) => {
                            proof {
                                lemma_entries_of_error(resolutions_map@, i + 1);
                            }
                            return Err(e);
                        },
                    }
                    i = i + 1;
                }
                assert(resolutions_map@.take(i as int) =~= resolutions_map@);
                Ok(db)
            },
            _ => unexpected("an array of table", "the whole document"),
        }
    }
}

/// An error among the first entries is the error of the whole.
proof fn lemma_entries_of_error(items: Seq<Field>, n: int)
    requires
        0 <= n <= items.len(),
        entries_of(items.take(n)) is Err,
    ensures
        entries_of(items) == entries_of(items.take(n)),
    decreases items.len() - n,
{
    if n == items.len() {
        assert(items.take(n) =~= items);
    } else {
        assert(items.take(n + 1).drop_last() =~= items.take(n));
        lemma_entries_of_error(items, n + 1);
    }
}


/// The fields are those of `origin`, in any order.
pub open spec fn origin_table(t: Seq<Field>, origin: PathOriginView) -> bool {
    &&& is_text(field_at(t, "attr"@), origin.attr)
    &&& is_text(field_at(t, "output"@), origin.output)
    &&& field_at(t, "toplevel"@) == Some(Toml::Boolean(origin.toplevel))
    &&& match origin.system {
        Some(system) => is_text(field_at(t, "system"@), system) && t.len() == 4,
        None => field_at(t, "system"@) is None && t.len() == 3,
    }
}

/// The fields are those of `store_path`, in any order.
pub open spec fn store_path_table(t: Seq<Field>, store_path: StorePathView) -> bool {
    &&& t.len() == 4
    &&& is_text(field_at(t, "store_dir"@), store_path.store_dir)
    &&& is_text(field_at(t, "hash"@), store_path.hash)
    &&& is_text(field_at(t, "name"@), store_path.name)
    &&& field_at(t, "origin"@) matches Some(Toml::Table(o)) && origin_table(o@, store_path.origin)
}

/// Among the fields are those that state what is provided.
pub open spec fn provide_fields(t: Seq<Field>, data: ProvideDataView) -> bool {
    &&& is_text(field_at(t, "kind"@), kind_name(data.kind))
    &&& is_text(field_at(t, "file_entry_name"@), data.file_entry_name)
    &&& field_at(t, "store_path"@) matches Some(Toml::Table(sp)) && store_path_table(
        sp@,
        data.store_path,
    )
}

/// Among the fields are those that state the decision.
pub open spec fn decision_fields(t: Seq<Field>, decision: DecisionView) -> bool {
    match decision {
        DecisionView::Ignore => is_text(field_at(t, "decision"@), "ignore"@),
        DecisionView::Provide(data) => is_text(field_at(t, "decision"@), "provide"@)
            && provide_fields(t, data),
    }
}

/// The number of fields that state a decision.
pub open spec fn decision_len(decision: DecisionView) -> nat {
    match decision {
        DecisionView::Ignore => 1,
        DecisionView::Provide(_) => 4,
    }
}

/// The fields are those of the entry for `resolution`, in any order.
pub open spec fn resolution_table(t: Seq<Field>, resolution: ResolutionView) -> bool {
    &&& is_text(field_at(t, "resolution"@), "constant"@)
    &&& decision_fields(t, resolution.decision())
    &&& t.len() == 1 + decision_len(resolution.decision())
}

/// The field is the entry for `resolution`: its table under its path.
pub open spec fn entry_for(f: Field, resolution: ResolutionView) -> bool {
    &&& f.key@ == resolution.requested_path()
    &&& f.value matches Toml::Table(t) && resolution_table(t@, resolution)
}

/// The entries are those of the database, one for each path, in any order.
pub open spec fn document_table(doc: Seq<Field>, db: DbView) -> bool {
    &&& forall|i: int|
        0 <= i < doc.len() ==> db.contains_key((#[trigger] doc[i]).key@) && entry_for(
            doc[i],
            db[doc[i].key@],
        )
    &&& forall|k: Seq<char>|
        db.contains_key(k) ==> exists|i: int| 0 <= i < doc.len() && (#[trigger] doc[i]).key@ == k
    &&& forall|i: int, j: int|
        0 <= i < j < doc.len() ==> (#[trigger] doc[i]).key@ != (#[trigger] doc[j]).key@
}

/// The names of the fields of an origin differ from each other.
pub proof fn lemma_origin_names_differ()
    ensures
        "attr"@ != "output"@,
        "attr"@ != "toplevel"@,
        "attr"@ != "system"@,
        "output"@ != "toplevel"@,
        "output"@ != "system"@,
        "toplevel"@ != "system"@,
{
    reveal_strlit("attr");
    reveal_strlit("output");
    reveal_strlit("toplevel");
    reveal_strlit("system");
    assert("attr"@.len() == 4 && "output"@.len() == 6 && "toplevel"@.len() == 8);
    assert("system"@.len() == 6);
    assert("output"@[0] != "system"@[0]);
}

/// The names of the fields of a store path differ from each other.
pub proof fn lemma_store_path_names_differ()
    ensures
        "store_dir"@ != "hash"@,
        "store_dir"@ != "name"@,
        "store_dir"@ != "origin"@,
        "hash"@ != "name"@,
        "hash"@ != "origin"@,
        "name"@ != "origin"@,
{
    reveal_strlit("store_dir");
    reveal_strlit("hash");
    reveal_strlit("name");
    reveal_strlit("origin");
    assert("store_dir"@.len() == 9 && "hash"@.len() == 4 && "name"@.len() == 4);
    assert("origin"@.len() == 6);
    assert("hash"@[0] != "name"@[0]);
}

/// The names of the fields of an entry differ from each other, and so do
/// the two words for the decisions.
pub proof fn lemma_entry_names_differ()
    ensures
        "resolution"@ != "decision"@,
        "resolution"@ != "kind"@,
        "resolution"@ != "file_entry_name"@,
        "resolution"@ != "store_path"@,
        "decision"@ != "kind"@,
        "decision"@ != "file_entry_name"@,
        "decision"@ != "store_path"@,
        "kind"@ != "file_entry_name"@,
        "kind"@ != "store_path"@,
        "file_entry_name"@ != "store_path"@,
        "ignore"@ != "provide"@,
{
    reveal_strlit("resolution");
    reveal_strlit("decision");
    reveal_strlit("kind");
    reveal_strlit("file_entry_name");
    reveal_strlit("store_path");
    reveal_strlit("ignore");
    reveal_strlit("provide");
    assert("resolution"@.len() == 10 && "decision"@.len() == 8 && "kind"@.len() == 4);
    assert("file_entry_name"@.len() == 15 && "store_path"@.len() == 10);
    assert("ignore"@.len() == 6 && "provide"@.len() == 7);
    assert("resolution"@[0] != "store_path"@[0]);
}

/// Each kind is read back from its name.
pub proof fn lemma_kind_names(kind: FileType)
    ensures
        kind_of_name(kind_name(kind)) == Some(kind),
{
    reveal_strlit("socket");
    reveal_strlit("symlink");
    reveal_strlit("named-pipe");
    reveal_strlit("directory");
    reveal_strlit("char-device");
    reveal_strlit("block-device");
    reveal_strlit("regular-file");
    assert("socket"@.len() == 6 && "symlink"@.len() == 7 && "named-pipe"@.len() == 10);
    assert("directory"@.len() == 9 && "char-device"@.len() == 11);
    assert("block-device"@.len() == 12 && "regular-file"@.len() == 12);
    assert("block-device"@[0] != "regular-file"@[0]);
}

/// A key is looked up in what stands first, and then in what follows.
pub proof fn lemma_field_at_concat(a: Seq<Field>, b: Seq<Field>, key: Seq<char>)
    ensures
        field_at(a + b, key) == if field_at(a, key) is Some {
            field_at(a, key)
        } else {
            field_at(b, key)
        },
    decreases a.len(),
{
    if a.len() == 0 {
        assert(a + b =~= b);
    } else {
        assert((a + b).drop_first() =~= a.drop_first() + b);
        lemma_field_at_concat(a.drop_first(), b, key);
    }
}

/// In a table of one field a key finds that field or nothing.
pub proof fn lemma_field_at_one(f: Field, key: Seq<char>)
    ensures
        field_at(seq![f], key) == if f.key@ == key {
            Some(f.value)
        } else {
            None
        },
{
    if f.key@ == key {
        lemma_field_at(seq![f], key, 0);
    } else {
        lemma_field_at(seq![f], key, 1);
    }
}

fn text_entry(key: &str, value: &str) -> (f: Field)
    ensures
        f.key@ == key@,
        is_text(Some(f.value), value@),
{
    Field { key: String::from_str(key), value: Toml::Text(String::from_str(value)) }
}

/// The name under which a kind of file is written.
pub fn filetype_name(kind: FileType) -> (name: &'static str)
    ensures
        name@ == kind_name(kind),
{
    match kind {
        FileType::Socket => "socket",
        FileType::Symlink => "symlink",
        FileType::NamedPipe => "named-pipe",
        FileType::Directory => "directory",
        FileType::CharDevice => "char-device",
        FileType::BlockDevice => "block-device",
        FileType::RegularFile => "regular-file",
    }
}

impl PathOrigin {
    /// The fields that state the origin.
    pub fn to_toml_table(&self) -> (t: Vec<Field>)
        ensures
            origin_table(t@, self@),
    {
        let mut t: Vec<Field> = Vec::new();
        t.push(text_entry("attr", self.attr.as_str()));
        t.push(text_entry("output", self.output.as_str()));
        t.push(Field { key: String::from_str("toplevel"), value: Toml::Boolean(self.toplevel) });
        match &self.system {
            Some(system) => {
                t.push(text_entry("system", system.as_str()));
            },
            None => {},
        }
        proof {
            lemma_origin_names_differ();
            lemma_field_at(t@, "attr"@, 0);
            lemma_field_at(t@, "output"@, 1);
            lemma_field_at(t@, "toplevel"@, 2);
            lemma_field_at(t@, "system"@, 3);
        }
        t
    }
}

impl StorePath {
    /// The fields that state the store path.
    pub fn to_toml_table(&self) -> (t: Vec<Field>)
        ensures
            store_path_table(t@, self@),
    {
        let mut t: Vec<Field> = Vec::new();
        t.push(text_entry("store_dir", self.store_dir.as_str()));
        t.push(text_entry("hash", self.hash.as_str()));
        t.push(text_entry("name", self.name.as_str()));
        t.push(Field { key: String::from_str("origin"), value: Toml::Table(self.origin.to_toml_table()) });
        proof {
            lemma_store_path_names_differ();
            lemma_field_at(t@, "store_dir"@, 0);
            lemma_field_at(t@, "hash"@, 1);
            lemma_field_at(t@, "name"@, 2);
            lemma_field_at(t@, "origin"@, 3);
        }
        t
    }
}

impl ProvideData {
    /// The fields that state what is provided.
    pub fn to_human_toml_table(&self) -> (t: Vec<Field>)
        ensures
            provide_fields(t@, self@),
            t@.len() == 3,
    {
        let mut t: Vec<Field> = Vec::new();
        t.push(text_entry("kind", filetype_name(self.kind)));
        t.push(text_entry("file_entry_name", self.file_entry_name.as_str()));
        t.push(
            Field {
                key: String::from_str("store_path"),
                value: Toml::Table(self.store_path.to_toml_table()),
            },
        );
        proof {
            lemma_entry_names_differ();
            lemma_field_at(t@, "kind"@, 0);
            lemma_field_at(t@, "file_entry_name"@, 1);
            lemma_field_at(t@, "store_path"@, 2);
        }
        t
    }
}

impl Decision {
    /// The fields that state the decision.
    pub fn to_human_toml_table(&self) -> (t: Vec<Field>)
        ensures
            decision_fields(t@, self@),
            t@.len() == decision_len(self@),
    {
        let mut t: Vec<Field> = Vec::new();
        match self {
            Decision::Provide(data) => {
                t.push(text_entry("decision", "provide"));
                let mut fields = data.to_human_toml_table();
                proof {
                    lemma_entry_names_differ();
                    lemma_field_at_one(t@[0], "decision"@);
                    lemma_field_at_one(t@[0], "kind"@);
                    lemma_field_at_one(t@[0], "file_entry_name"@);
                    lemma_field_at_one(t@[0], "store_path"@);
                    assert(t@ =~= seq![t@[0]]);
                    lemma_field_at_concat(t@, fields@, "decision"@);
                    lemma_field_at_concat(t@, fields@, "kind"@);
                    lemma_field_at_concat(t@, fields@, "file_entry_name"@);
                    lemma_field_at_concat(t@, fields@, "store_path"@);
                }
                t.append(&mut fields);
            },
            Decision::Ignore => {
                t.push(text_entry("decision", "ignore"));
                proof {
                    lemma_field_at(t@, "decision"@, 0);
                }
            },
        }
        t
    }
}

impl Resolution {
    /// The entry of the document for this resolution: one field, the
    /// resolution's table under its path.
    pub fn to_human_toml_table(&self) -> (t: Vec<Field>)
        ensures
            t@.len() == 1,
            entry_for(t@[0], self@),
    {
        let mut table: Vec<Field> = Vec::new();
        table.push(text_entry("resolution", "constant"));
        let mut fields = self.decision().to_human_toml_table();
        proof {
            lemma_entry_names_differ();
            assert(table@ =~= seq![table@[0]]);
            lemma_field_at_one(table@[0], "resolution"@);
            lemma_field_at_one(table@[0], "decision"@);
            lemma_field_at_one(table@[0], "kind"@);
            lemma_field_at_one(table@[0], "file_entry_name"@);
            lemma_field_at_one(table@[0], "store_path"@);
            lemma_field_at_concat(table@, fields@, "resolution"@);
            lemma_field_at_concat(table@, fields@, "decision"@);
            lemma_field_at_concat(table@, fields@, "kind"@);
            lemma_field_at_concat(table@, fields@, "file_entry_name"@);
            lemma_field_at_concat(table@, fields@, "store_path"@);
        }
        table.append(&mut fields);
        let mut gtable: Vec<Field> = Vec::new();
        gtable.push(Field { key: self.requested_path().clone(), value: Toml::Table(table) });
        gtable
    }
}

/// The document for a database: the entries of its resolutions, in the
/// order of their paths.
pub fn db_to_human_toml(db: &ResolutionDB) -> (table: Vec<Field>)
    requires
        db.wf(),
    ensures
        document_table(table@, db@),
        table@.len() == db.entries@.len(),
        forall|j: int|
            0 <= j < table@.len() ==> (#[trigger] table@[j]).key@ == path_of(db.entries@[j]),
{
    let mut table: Vec<Field> = Vec::new();
    let mut i: usize = 0;
    while i < db.entries.len()
        invariant
            i <= db.entries.len(),
            db.wf(),
            table@.len() == i,
            forall|j: int|
                0 <= j < i ==> (#[trigger] table@[j]).key@ == path_of(
                    db.entries@[j],
                ) && entry_for(table@[j], db.entries@[j]@),
        decreases db.entries.len() - i,
    {
        let mut item = db.entries[i].to_human_toml_table();
        let ghost before = table@;
        let ghost entry = item@[0];
        table.append(&mut item);
        assert(table@[i as int] == entry);
        assert forall|j: int| 0 <= j < i implies table@[j] == before[j] by {}
        i = i + 1;
    }
    proof {
        let doc = table@;
        let entries = db.entries@;
        assert forall|j: int| 0 <= j < doc.len() implies db@.contains_key(
            (#[trigger] doc[j]).key@,
        ) && entry_for(doc[j], db@[doc[j].key@]) by {
            lemma_map_of_entry(entries, j);
        }
        assert forall|k: Seq<char>| db@.contains_key(k) implies exists|j: int|
            0 <= j < doc.len() && (#[trigger] doc[j]).key@ == k by {
            let j = choose|j: int|
                0 <= j < entries.len() && path_of(#[trigger] entries[j]) == k;
            assert(doc[j].key@ == k);
        }
        assert forall|a: int, b: int| 0 <= a < b < doc.len() implies (#[trigger] doc[a]).key@ != (
        #[trigger] doc[b]).key@ by {
            assert(key_lt(
                path_of(entries[a]),
                path_of(entries[b]),
            ));
            lemma_key_lt_irreflexive(doc[a].key@);
        }
    }
    table
}


/// Reading the fields written for an origin gives the origin back.
pub proof fn lemma_origin_read_back(t: Seq<Field>, origin: PathOriginView)
    requires
        origin_table(t, origin),
    ensures
        origin_of(t) == Ok::<PathOriginView, ParseErrorView>(origin),
{
}

/// Reading the fields written for a store path gives the store path back.
pub proof fn lemma_store_path_read_back(t: Seq<Field>, store_path: StorePathView)
    requires
        store_path_table(t, store_path),
    ensures
        store_path_of(t) == Ok::<StorePathView, ParseErrorView>(store_path),
{
    let o = field_at(t, "origin"@)->0->Table_0;
    lemma_origin_read_back(o@, store_path.origin);
}

/// Reading the fields written for a decision gives the decision back.
pub proof fn lemma_decision_read_back(t: Seq<Field>, decision: DecisionView)
    requires
        decision_fields(t, decision),
    ensures
        decision_of(t) == Ok::<DecisionView, ParseErrorView>(decision),
{
    lemma_entry_names_differ();
    match decision {
        DecisionView::Ignore => {},
        DecisionView::Provide(data) => {
            lemma_kind_names(data.kind);
            let sp = field_at(t, "store_path"@)->0->Table_0;
            lemma_store_path_read_back(sp@, data.store_path);
        },
    }
}

/// Reading the entry written for a resolution gives the resolution back.
pub proof fn lemma_entry_read_back(f: Field, resolution: ResolutionView)
    requires
        entry_for(f, resolution),
    ensures
        item_of(f) == Ok::<ResolutionView, ParseErrorView>(resolution),
{
    let t = f.value->Table_0;
    lemma_decision_read_back(t@, resolution.decision());
}

/// The part of a database that the first `n` entries of a document state.
pub open spec fn stated_by(doc: Seq<Field>, db: DbView, n: int) -> DbView {
    Map::new(
        |k: Seq<char>| exists|i: int| 0 <= i < n && (#[trigger] doc[i]).key@ == k,
        |k: Seq<char>| db[k],
    )
}

proof fn lemma_prefix_read_back(doc: Seq<Field>, db: DbView, n: int)
    requires
        document_table(doc, db),
        0 <= n <= doc.len(),
    ensures
        entries_of(doc.take(n)) == Ok::<DbView, ParseErrorView>(stated_by(doc, db, n)),
    decreases n,
{
    if n == 0 {
        assert(stated_by(doc, db, 0) =~= Map::<Seq<char>, ResolutionView>::empty());
    } else {
        lemma_prefix_read_back(doc, db, n - 1);
        let items = doc.take(n);
        assert(items.drop_last() =~= doc.take(n - 1));
        assert(items.last() == doc[n - 1]);
        let key = doc[n - 1].key@;
        lemma_entry_read_back(doc[n - 1], db[key]);
        assert(stated_by(doc, db, n) =~= stated_by(doc, db, n - 1).insert(key, db[key]));
    }
}

/// A document that holds the entries of a database, in whatever order, is
/// read as that database: reading undoes writing.
pub proof fn lemma_document_read_back(doc: Seq<Field>, db: DbView)
    requires
        document_table(doc, db),
    ensures
        entries_of(doc) == Ok::<DbView, ParseErrorView>(db),
{
    lemma_prefix_read_back(doc, db, doc.len() as int);
    assert(doc.take(doc.len() as int) =~= doc);
    assert(stated_by(doc, db, doc.len() as int) =~= db);
}

/// Writing undoes reading, up to the order of the keys: where `doc` holds
/// the entries of a database and nothing else, what is written for the
/// database that `doc` is read as holds the same entries as `doc`.
pub proof fn lemma_read_then_written(
    doc: Seq<Field>,
    stated: DbView,
    read: DbView,
    written: Seq<Field>,
)
    requires
        document_table(doc, stated),
        entries_of(doc) == Ok::<DbView, ParseErrorView>(read),
        document_table(written, read),
    ensures
        read == stated,
        document_table(written, stated),
{
    lemma_document_read_back(doc, stated);
}

/// Why a text is no database of resolutions.
#[derive(Debug)]
pub enum ReadError {
    /// The text is no TOML at all.
    NotToml,
    /// The text is TOML, but an entry of it states no resolution.
    Invalid(ParseResolutionError),
}

/// Reads a database from the text of a document, which must be TOML. The
/// first entry that states no resolution gives the error, and then nothing
/// of the text is read.
pub fn read_resolution_db(data: &str) -> (r: Result<ResolutionDB, ParseResolutionError>)
    requires
        parsed_document(data@) is Some,
    ensures
        agrees(r, db_of_document(parsed_document(data@)->0)),
        r matches Ok(db) ==> db.wf(),
{
    match parse_document(data) {
        Some(doc) => Resolution::from_toml(&doc),
        None => {
            assert(false);
            unexpected("an array of table", "the whole document")
        },
    }
}

/// Reads a database from a text. A text that is no TOML is told apart from
/// one that is TOML and states no database, and both from a database that
/// was read.
pub fn try_read_resolution_db(data: &str) -> (r: Result<ResolutionDB, ReadError>)
    ensures
        match r {
            Ok(db) => parsed_document(data@) matches Some(doc) && db.wf() && db_of_document(doc)
                == Ok::<DbView, ParseErrorView>(db@),
            Err(ReadError::NotToml) => parsed_document(data@) is None,
            Err(ReadError::Invalid(e)) => parsed_document(data@) matches Some(doc)
                && db_of_document(doc) == Err::<DbView, ParseErrorView>(e@),
        },
{
    match parse_document(data) {
        Some(_) => match read_resolution_db(data) {
            Ok(db) => Ok(db),
            Err(e) => Err(ReadError::Invalid(e)),
        },
        None => Err(ReadError::NotToml),
    }
}

/// `r` is what the serializer makes of a document that holds the entries of
/// `db`: its text, or nothing where the serializer refuses the document.
pub open spec fn is_written(db: DbView, r: Option<String>) -> bool {
    exists|doc: Vec<Field>|
        document_table(doc@, db) && (match r {
            Some(text) => rendered_document(Toml::Table(doc)) == Some(text@),
            None => rendered_document(Toml::Table(doc)) is None,
        })
}

/// The text of the document for a database, as it is written to disk;
/// nothing where the serializer refuses.
pub fn write_resolution_db(db: &ResolutionDB) -> (r: Option<String>)
    requires
        db.wf(),
    ensures
        is_written(db@, r),
{
    let doc = Toml::Table(db_to_human_toml(db));
    let r = render_document(&doc);
    assert(doc matches Toml::Table(fields) && document_table(fields@, db@));
    r
}

/// Whether a file of this name holds a database: its name ends in `.toml`.
pub open spec fn is_database_name(name: Seq<char>) -> bool {
    has_suffix(name, ".toml"@)
}

/// The database file among the files of a directory: the first, in the
/// order given, whose name says that it holds one, as a path below the
/// directory. There is none where no file has such a name.
pub open spec fn located(search_path: Seq<char>, names: Seq<String>) -> Option<Seq<char>>
    decreases names.len(),
{
    if names.len() == 0 {
        None
    } else if is_database_name(names[0]@) {
        Some(joined(search_path, names[0]@))
    } else {
        located(search_path, names.drop_first())
    }
}

/// The database file is the first whose name says so.
proof fn lemma_located(search_path: Seq<char>, names: Seq<String>, i: int)
    requires
        0 <= i <= names.len(),
        forall|j: int| 0 <= j < i ==> !is_database_name((#[trigger] names[j])@),
    ensures
        i < names.len() && is_database_name(names[i]@) ==> located(search_path, names) == Some(
            joined(search_path, names[i]@),
        ),
        i == names.len() ==> located(search_path, names) is None,
    decreases i,
{
    if i > 0 {
        let rest = names.drop_first();
        assert(!is_database_name(names[0]@));
        assert forall|j: int| 0 <= j < i - 1 implies !is_database_name((#[trigger] rest[j])@) by {
            assert(rest[j] == names[j + 1]);
        }
        lemma_located(search_path, rest, i - 1);
        if i < names.len() {
            assert(rest[i - 1] == names[i]);
        }
    }
}

/// Search the files of a directory for a resolution database. `names` holds
/// the names of the files that lie in `search_path`, and nothing where the
/// directory is not there.
pub fn locate_resolution_db(search_path: &str, names: &Vec<String>) -> (r: Option<String>)
    ensures
        match r {
            Some(path) => located(search_path@, names@) == Some(path@),
            None => located(search_path@, names@) is None,
        },
{
    let mut i: usize = 0;
    while i < names.len()
        invariant
            i <= names.len(),
            forall|j: int| 0 <= j < i ==> !is_database_name((#[trigger] names@[j])@),
        decreases names.len() - i,
    {
        if ends_with(names[i].as_str(), ".toml") {
            proof {
                lemma_located(search_path@, names@, i as int);
            }
            return Some(join_path(search_path, names[i].as_str()));
        }
        i = i + 1;
    }
    proof {
        lemma_located(search_path@, names@, i as int);
    }
    None
}

} // verus!
