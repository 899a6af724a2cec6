//! TOML documents as trees of plain values.

use vstd::prelude::*;
use vstd::string::*;
use crate::text::str_eq;

verus! {

/// `toml::Value`, which is opaque here: a value of it is carried along and
/// handed back, and never looked into.
#[verifier::external_type_specification]
#[verifier::external_body]
pub struct ExTomlValue(toml::Value);

/// A key of a table with its value.
#[derive(Debug)]
pub struct Field {
    pub key: String,
    pub value: Toml,
}

/// A TOML value. A float or a date is kept as the parser gave it: no
/// document that is read here holds one where it counts.
#[derive(Debug)]
pub enum Toml {
    Text(String),
    Integer(i64),
    Boolean(bool),
    Array(Vec<Toml>),
    Table(Vec<Field>),
    Other(toml::Value),
}

/// The value under `key`: that of the first field with this key.
pub open spec fn field_at(fields: Seq<Field>, key: Seq<char>) -> Option<Toml>
    decreases fields.len(),
{
    if fields.len() == 0 {
        None
    } else if fields[0].key@ == key {
        Some(fields[0].value)
    } else {
        field_at(fields.drop_first(), key)
    }
}

/// Whether `v` is the text `t`.
pub open spec fn is_text(v: Option<Toml>, t: Seq<char>) -> bool {
    v matches Some(Toml::Text(s)) && s@ == t
}

/// No field before `n` has the key.
pub open spec fn absent_before(fields: Seq<Field>, key: Seq<char>, n: int) -> bool {
    forall|j: int| 0 <= j < n ==> (#[trigger] fields[j]).key@ != key
}

/// A key is found at the first field that has it, and nowhere if no field
/// has it.
pub proof fn lemma_field_at(fields: Seq<Field>, key: Seq<char>, i: int)
    requires
        0 <= i <= fields.len(),
        absent_before(fields, key, i),
    ensures
        i < fields.len() && fields[i].key@ == key ==> field_at(fields, key) == Some(
            fields[i].value,
        ),
        i == fields.len() ==> field_at(fields, key) is None,
    decreases i,
{
    if i == 0 {
    } else {
        let rest = fields.drop_first();
        assert(fields[0].key@ != key);
        assert forall|j: int| 0 <= j < i - 1 implies (#[trigger] rest[j]).key@ != key by {
            assert(rest[j] == fields[j + 1]);
        }
        lemma_field_at(rest, key, i - 1);
        if i < fields.len() {
            assert(rest[i - 1] == fields[i]);
        }
    }
}

/// The value under `key` in a table.
pub fn get_field<'a>(fields: &'a Vec<Field>, key: &str) -> (r: Option<&'a Toml>)
    ensures
        r matches Some(v) ==> field_at(fields@, key@) == Some(*v),
        r is None ==> field_at(fields@, key@) is None,
{
    let mut i: usize = 0;
    while i < fields.len()
        invariant
            i <= fields.len(),
            absent_before(fields@, key@, i as int),
        decreases fields.len() - i,
    {
        if str_eq(fields[i].key.as_str(), key) {
            proof {
                lemma_field_at(fields@, key@, i as int);
            }
            return Some(&fields[i].value);
        }
        i = i + 1;
    }
    proof {
        lemma_field_at(fields@, key@, i as int);
    }
    None
}

/// What `toml::from_str` makes of a text: the document's tree, or nothing
/// where the text is no TOML.
pub uninterp spec fn parsed_document(text: Seq<char>) -> Option<Toml>;

/// What `toml::to_string_pretty` writes for a tree, or nothing where it
/// refuses the tree.
pub uninterp spec fn rendered_document(doc: Toml) -> Option<Seq<char>>;

/// Takes a `toml::Value` apart, variant by variant, into a tree of this
/// library; a float or a date is carried along as it is. Nothing is claimed
/// of the result.
#[verifier::external_body]
fn lift(v: toml::Value) -> Toml {
    match v {
        toml::Value::String(s) => Toml::Text(s),
        toml::Value::Integer(i) => Toml::Integer(i),
        toml::Value::Boolean(b) => Toml::Boolean(b),
        toml::Value::Array(a) => Toml::Array(a.into_iter().map(lift).collect()),
        toml::Value::Table(t) => Toml::Table(
            t.into_iter().map(|(key, v)| Field { key, value: lift(v) }).collect(),
        ),
        toml::Value::Float(_) => Toml::Other(v),
        toml::Value::Datetime(_) => Toml::Other(v),
    }
}

/// Builds the `toml::Value` for a tree, variant by variant. Nothing is
/// claimed of the result.
#[verifier::external_body]
fn lower(v: &Toml) -> toml::Value {
    match v {
        Toml::Text(s) => toml::Value::String(s.clone()),
        Toml::Integer(i) => toml::Value::Integer(*i),
        Toml::Boolean(b) => toml::Value::Boolean(*b),
        Toml::Array(a) => toml::Value::Array(a.iter().map(lower).collect()),
        Toml::Table(t) => toml::Value::Table(
            t.iter().map(|f| (f.key.clone(), lower(&f.value))).collect(),
        ),
        Toml::Other(v) => v.clone(),
    }
}

/// `toml::from_str`, read as a `toml::Value`: the tree of the document that
/// `text` is, which depends on the text alone; nothing for a text that the
/// parser refuses.
#[verifier::external_body]
pub(crate) fn parse_document(text: &str) -> (r: Option<Toml>)
    ensures
        r == parsed_document(text@),
{
    match toml::from_str::<toml::Value>(text) {
        Ok(v) => Some(lift(v)),
        Err(_) => None,
    }
}

/// `toml::to_string_pretty`: the text that the serializer writes for the
/// tree, which depends on the tree alone; nothing where it reports an error.
#[verifier::external_body]
pub(crate) fn render_document(doc: &Toml) -> (r: Option<String>)
    ensures
        match r {
            Some(s) => rendered_document(*doc) == Some(s@),
            None => rendered_document(*doc) is None,
        },
{
    match toml::to_string_pretty(&lower(doc)) {
        Ok(s) => Some(s),
        Err(_) => None,
    }
}

} // verus!
