//! Asking the package index: the pattern that a path is looked up by, and
//! which of the rows that come back count.

use vstd::prelude::*;
use vstd::string::*;
use crate::cache::{clone_candidate, Candidate};
use crate::text::join_text;

verus! {

/// Whether the character means something in a regular expression.
pub open spec fn is_meta_character(c: char) -> bool {
    c == '\\' || c == '.' || c == '+' || c == '*' || c == '?' || c == '(' || c == ')' || c == '|'
        || c == '[' || c == ']' || c == '{' || c == '}' || c == '^' || c == '$' || c == '#' || c
        == '&' || c == '-' || c == '~'
}

/// The text with a backslash before each character that means something in
/// a regular expression.
pub open spec fn escaped(text: Seq<char>) -> Seq<char>
    decreases text.len(),
{
    if text.len() == 0 {
        text
    } else if is_meta_character(text.last()) {
        escaped(text.drop_last()).push('\\').push(text.last())
    } else {
        escaped(text.drop_last()).push(text.last())
    }
}

/// `regex::escape`: goes through the characters of the text in order and
/// writes each one out, with a backslash before it where it is one of the
/// eighteen meta characters.
#[verifier::external_body]
fn escape(text: &str) -> (r: String)
    ensures
        r@ == escaped(text@),
{
    regex::escape(text)
}

/// The pattern that matches the path below the root of a package, and
/// nothing else.
pub open spec fn pattern_for(path: Seq<char>) -> Seq<char> {
    seq!['^', '/'] + escaped(path) + seq!['$']
}

/// The pattern by which the index is asked for `requested_path`.
pub fn search_pattern(requested_path: &str) -> (pattern: String)
    ensures
        pattern@ == pattern_for(requested_path@),
{
    proof {
        reveal_strlit("^/");
        reveal_strlit("$");
    }
    let escaped_path = escape(requested_path);
    let mut pattern = join_text("^/", escaped_path.as_str());
    pattern.append("$");
    assert("^/"@ =~= seq!['^', '/']);
    assert("$"@ =~= seq!['$']);
    pattern
}

/// The rows whose package is offered by itself, in their order.
pub open spec fn toplevel_only(rows: Seq<Candidate>) -> Seq<Candidate>
    decreases rows.len(),
{
    if rows.len() == 0 {
        rows
    } else if rows.last().0.origin.toplevel {
        toplevel_only(rows.drop_last()).push(rows.last())
    } else {
        toplevel_only(rows.drop_last())
    }
}

/// Each row that is kept is one of the rows.
pub proof fn lemma_toplevel_only(rows: Seq<Candidate>)
    ensures
        toplevel_only(rows).len() <= rows.len(),
        forall|i: int|
            0 <= i < toplevel_only(rows).len() ==> rows.contains(#[trigger] toplevel_only(rows)[i])
                && toplevel_only(rows)[i].0.origin.toplevel,
        forall|j: int|
            0 <= j < rows.len() && (#[trigger] rows[j]).0.origin.toplevel ==> toplevel_only(
                rows,
            ).contains(rows[j]),
    decreases rows.len(),
{
    if rows.len() > 0 {
        let init = rows.drop_last();
        lemma_toplevel_only(init);
        let kept = toplevel_only(rows);
        assert forall|i: int| 0 <= i < kept.len() implies rows.contains(#[trigger] kept[i])
            && kept[i].0.origin.toplevel by {
            if i < toplevel_only(init).len() {
                let c = toplevel_only(init)[i];
                assert(init.contains(c));
                let j = choose|j: int| 0 <= j < init.len() && init[j] == c;
                assert(rows[j] == c);
            } else {
                assert(kept[i] == rows[rows.len() - 1]);
            }
        }
        assert forall|j: int|
            0 <= j < rows.len() && (#[trigger] rows[j]).0.origin.toplevel implies kept.contains(
            rows[j],
        ) by {
            if j < init.len() {
                assert(init[j] == rows[j]);
                let i = choose|i: int|
                    0 <= i < toplevel_only(init).len() && toplevel_only(init)[i] == rows[j];
                assert(kept[i] == rows[j]);
            } else {
                assert(kept[kept.len() - 1] == rows[j]);
            }
        }
    }
}

/// Drops the rows of packages that are only pulled in by others.
pub fn toplevel_candidates(rows: &Vec<Candidate>) -> (candidates: Vec<Candidate>)
    ensures
        candidates@ == toplevel_only(rows@),
{
    let mut candidates: Vec<Candidate> = Vec::new();
    let mut i: usize = 0;
    assert(rows@.take(0) =~= Seq::<Candidate>::empty());
    while i < rows.len()
        invariant
            i <= rows.len(),
            candidates@ == toplevel_only(rows@.take(i as int)),
        decreases rows.len() - i,
    {
        proof {
            assert(rows@.take(i + 1).drop_last() =~= rows@.take(i as int));
            assert(rows@.take(i + 1).last() == rows@[i as int]);
        }
        if rows[i].0.origin.toplevel {
            candidates.push(clone_candidate(&rows[i]));
        }
        i = i + 1;
    }
    assert(rows@.take(i as int) =~= rows@);
    candidates
}

} // verus!
