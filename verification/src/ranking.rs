//! The order in which candidates are proposed.

use vstd::prelude::*;
use vstd::string::*;
use crate::attr::{dir_like, file_or_symlink, is_dir, is_file_or_symlink};
use crate::cache::{clone_candidate, Candidate};
use crate::popcount::Popcount;

verus! {

/// The key by which candidates are ordered: the smaller, the earlier. It is
/// the popularity of the package, negated.
pub open spec fn sort_key(popcount: &Popcount, c: Candidate) -> int {
    -(popcount.popularity(c.0@.text()) as int)
}

/// Where a candidate with key `k` goes among candidates in order: behind
/// all those whose key is not greater.
pub open spec fn slot(popcount: &Popcount, ordered: Seq<Candidate>, k: int) -> int
    decreases ordered.len(),
{
    if ordered.len() == 0 {
        0
    } else if sort_key(popcount, ordered[0]) <= k {
        1 + slot(popcount, ordered.drop_first(), k)
    } else {
        0
    }
}

/// The candidates in the order of their keys; those of equal key stay in
/// the order in which they came.
pub open spec fn ranked(popcount: &Popcount, candidates: Seq<Candidate>) -> Seq<Candidate>
    decreases candidates.len(),
{
    if candidates.len() == 0 {
        candidates
    } else {
        let ordered = ranked(popcount, candidates.drop_last());
        ordered.insert(
            slot(popcount, ordered, sort_key(popcount, candidates.last())),
            candidates.last(),
        )
    }
}

/// The keys do not decrease along the sequence.
pub open spec fn in_order(popcount: &Popcount, s: Seq<Candidate>) -> bool {
    forall|i: int, j: int|
        0 <= i < j < s.len() ==> sort_key(popcount, #[trigger] s[i]) <= sort_key(
            popcount,
            #[trigger] s[j],
        )
}

/// All candidates are directories, or none is: files and links on one
/// side, directories on the other.
pub open spec fn homogeneous(s: Seq<Candidate>) -> bool {
    (forall|i: int| 0 <= i < s.len() ==> file_or_symlink((#[trigger] s[i]).1.node)) || (forall|
        i: int,
    | 0 <= i < s.len() ==> dir_like((#[trigger] s[i]).1.node))
}

/// The index of the candidate that is proposed first: the first among those
/// of the greatest popularity.
pub open spec fn first_best(popcount: &Popcount, candidates: Seq<Candidate>) -> int
    decreases candidates.len(),
{
    if candidates.len() <= 1 {
        0
    } else {
        let before = first_best(popcount, candidates.drop_last());
        if sort_key(popcount, candidates.last()) < sort_key(popcount, candidates[before]) {
            candidates.len() - 1
        } else {
            before
        }
    }
}

/// Among candidates in order, the slot for a key parts those whose key is
/// not greater from those whose key is.
pub proof fn lemma_slot(popcount: &Popcount, ordered: Seq<Candidate>, k: int)
    requires
        in_order(popcount, ordered),
    ensures
        0 <= slot(popcount, ordered, k) <= ordered.len(),
        forall|j: int|
            0 <= j < slot(popcount, ordered, k) ==> sort_key(popcount, #[trigger] ordered[j]) <= k,
        forall|j: int|
            slot(popcount, ordered, k) <= j < ordered.len() ==> k < sort_key(
                popcount,
                #[trigger] ordered[j],
            ),
    decreases ordered.len(),
{
    if ordered.len() > 0 {
        let rest = ordered.drop_first();
        assert forall|i: int, j: int| 0 <= i < j < rest.len() implies sort_key(
            popcount,
            #[trigger] rest[i],
        ) <= sort_key(popcount, #[trigger] rest[j]) by {
            assert(rest[i] == ordered[i + 1] && rest[j] == ordered[j + 1]);
        }
        lemma_slot(popcount, rest, k);
        if sort_key(popcount, ordered[0]) <= k {
            let p = slot(popcount, rest, k);
            assert forall|j: int| 0 <= j < p + 1 implies sort_key(popcount, #[trigger] ordered[j])
                <= k by {
                if j > 0 {
                    assert(ordered[j] == rest[j - 1]);
                }
            }
            assert forall|j: int| p + 1 <= j < ordered.len() implies k < sort_key(
                popcount,
                #[trigger] ordered[j],
            ) by {
                assert(ordered[j] == rest[j - 1]);
            }
        } else {
            assert forall|j: int| 0 <= j < ordered.len() implies k < sort_key(
                popcount,
                #[trigger] ordered[j],
            ) by {
                if j > 0 {
                    assert(sort_key(popcount, ordered[0]) <= sort_key(popcount, ordered[j]));
                }
            }
        }
    }
}

/// The slot is where the first key greater than `k` stands.
proof fn lemma_slot_found(popcount: &Popcount, ordered: Seq<Candidate>, k: int, p: int)
    requires
        0 <= p <= ordered.len(),
        forall|j: int| 0 <= j < p ==> sort_key(popcount, #[trigger] ordered[j]) <= k,
        p < ordered.len() ==> k < sort_key(popcount, ordered[p]),
    ensures
        slot(popcount, ordered, k) == p,
    decreases p,
{
    if p > 0 {
        let rest = ordered.drop_first();
        assert(sort_key(popcount, ordered[0]) <= k);
        assert forall|j: int| 0 <= j < p - 1 implies sort_key(popcount, #[trigger] rest[j])
            <= k by {
            assert(rest[j] == ordered[j + 1]);
        }
        if p < ordered.len() {
            assert(rest[p - 1] == ordered[p]);
        }
        lemma_slot_found(popcount, rest, k, p - 1);
    }
}

/// Ranking keeps every candidate, as often as it came, and puts the
/// candidates in the order of their keys.
pub proof fn lemma_ranked(popcount: &Popcount, candidates: Seq<Candidate>)
    ensures
        ranked(popcount, candidates).len() == candidates.len(),
        ranked(popcount, candidates).to_multiset() == candidates.to_multiset(),
        in_order(popcount, ranked(popcount, candidates)),
    decreases candidates.len(),
{
    broadcast use vstd::seq_lib::group_to_multiset_ensures;

    if candidates.len() == 0 {
    } else {
        let init = candidates.drop_last();
        let last = candidates.last();
        let ordered = ranked(popcount, init);
        let k = sort_key(popcount, last);
        let p = slot(popcount, ordered, k);
        lemma_ranked(popcount, init);
        lemma_slot(popcount, ordered, k);
        let out = ordered.insert(p, last);
        assert(candidates =~= init.push(last));
        assert(out.remove(p) =~= ordered);
        assert(out[p] == last);
        assert(out.contains(last));
        assert(out.to_multiset() =~= ordered.to_multiset().insert(last));
        assert forall|i: int, j: int| 0 <= i < j < out.len() implies sort_key(
            popcount,
            #[trigger] out[i],
        ) <= sort_key(popcount, #[trigger] out[j]) by {
            let oi = if i < p { i } else { i - 1 };
            let oj = if j < p { j } else { j - 1 };
            if i != p {
                assert(out[i] == ordered[oi]);
            }
            if j != p {
                assert(out[j] == ordered[oj]);
            }
        }
    }
}

/// The candidate that is proposed first is the first of those that no
/// other is more popular than.
pub proof fn lemma_first_best(popcount: &Popcount, candidates: Seq<Candidate>)
    requires
        candidates.len() > 0,
    ensures
        0 <= first_best(popcount, candidates) < candidates.len(),
        ranked(popcount, candidates)[0] == candidates[first_best(popcount, candidates)],
        forall|i: int|
            0 <= i < candidates.len() ==> sort_key(
                popcount,
                candidates[first_best(popcount, candidates)],
            ) <= sort_key(popcount, #[trigger] candidates[i]),
        forall|i: int|
            0 <= i < first_best(popcount, candidates) ==> sort_key(
                popcount,
                candidates[first_best(popcount, candidates)],
            ) < sort_key(popcount, #[trigger] candidates[i]),
    decreases candidates.len(),
{
    let init = candidates.drop_last();
    let last = candidates.last();
    if candidates.len() == 1 {
        assert(init.len() == 0);
        assert(ranked(popcount, init) =~= Seq::<Candidate>::empty());
        assert(ranked(popcount, candidates) =~= seq![last]);
    } else {
        lemma_first_best(popcount, init);
        lemma_ranked(popcount, init);
        let ordered = ranked(popcount, init);
        let k = sort_key(popcount, last);
        lemma_slot(popcount, ordered, k);
        let before = first_best(popcount, init);
        assert(init[before] == candidates[before]);
        assert(ordered[0] == init[before]);
        let p = slot(popcount, ordered, k);
        if k < sort_key(popcount, candidates[before]) {
            assert(p == 0) by {
                if p > 0 {
                    assert(sort_key(popcount, ordered[0]) <= k);
                }
            }
            assert forall|i: int| 0 <= i < candidates.len() - 1 implies k < sort_key(
                popcount,
                #[trigger] candidates[i],
            ) by {
                assert(candidates[i] == init[i]);
            }
        } else {
            assert(p > 0);
            assert forall|i: int| 0 <= i < candidates.len() implies sort_key(
                popcount,
                candidates[before],
            ) <= sort_key(popcount, #[trigger] candidates[i]) by {
                if i < candidates.len() - 1 {
                    assert(candidates[i] == init[i]);
                }
            }
            assert forall|i: int| 0 <= i < before implies sort_key(popcount, candidates[before])
                < sort_key(popcount, #[trigger] candidates[i]) by {
                assert(candidates[i] == init[i]);
            }
        }
    }
}

/// Ranking neither adds a candidate nor changes one: what holds of all
/// candidates before holds of all after.
pub proof fn lemma_ranked_members(popcount: &Popcount, candidates: Seq<Candidate>)
    ensures
        forall|i: int|
            0 <= i < ranked(popcount, candidates).len() ==> candidates.contains(
                #[trigger] ranked(popcount, candidates)[i],
            ),
        homogeneous(candidates) ==> homogeneous(ranked(popcount, candidates)),
{
    lemma_ranked(popcount, candidates);
    let r = ranked(popcount, candidates);
    assert forall|i: int| 0 <= i < r.len() implies candidates.contains(#[trigger] r[i]) by {
        assert(r.contains(r[i]));
        r.to_multiset_ensures();
        candidates.to_multiset_ensures();
        assert(r.to_multiset().count(r[i]) > 0);
        assert(candidates.to_multiset().count(r[i]) > 0);
    }
    if homogeneous(candidates) {
        if forall|i: int|
            0 <= i < candidates.len() ==> file_or_symlink((#[trigger] candidates[i]).1.node) {
            assert forall|i: int| 0 <= i < r.len() implies file_or_symlink(
                (#[trigger] r[i]).1.node,
            ) by {
                let j = choose|j: int| 0 <= j < candidates.len() && candidates[j] == r[i];
                assert(file_or_symlink(candidates[j].1.node));
            }
        } else {
            assert forall|i: int| 0 <= i < r.len() implies dir_like((#[trigger] r[i]).1.node) by {
                let j = choose|j: int| 0 <= j < candidates.len() && candidates[j] == r[i];
                assert(dir_like(candidates[j].1.node));
            }
        }
    }
}

/// Two rankings of the same candidates by the same popularity are the same.
pub proof fn lemma_ranking_is_stable(
    popcount: &Popcount,
    first: Seq<Candidate>,
    second: Seq<Candidate>,
)
    requires
        first == second,
    ensures
        ranked(popcount, first) == ranked(popcount, second),
        first.len() > 0 ==> ranked(popcount, first)[0] == ranked(popcount, second)[0],
{
}

/// A directory beside a file or a link makes a list mixed.
pub proof fn lemma_mixed_is_not_homogeneous(s: Seq<Candidate>, i: int, j: int)
    requires
        0 <= i < s.len(),
        0 <= j < s.len(),
        s[i].1.node is Directory,
        !(s[j].1.node is Directory),
    ensures
        !homogeneous(s),
{
    assert(!file_or_symlink(s[i].1.node));
    assert(!dir_like(s[j].1.node));
}

/// Whether all candidates are directories, or none is.
pub fn is_homogeneous(candidates: &Vec<Candidate>) -> (r: bool)
    ensures
        r == homogeneous(candidates@),
{
    let mut all_files = true;
    let mut all_dirs = true;
    let mut i: usize = 0;
    while i < candidates.len()
        invariant
            i <= candidates.len(),
            all_files == (forall|j: int|
                0 <= j < i ==> file_or_symlink((#[trigger] candidates@[j]).1.node)),
            all_dirs == (forall|j: int| 0 <= j < i ==> dir_like((#[trigger] candidates@[j]).1.node)),
        decreases candidates.len() - i,
    {
        if !is_file_or_symlink(&candidates[i].1.node) {
            all_files = false;
        }
        if !is_dir(&candidates[i].1.node) {
            all_dirs = false;
        }
        i = i + 1;
    }
    all_files || all_dirs
}

/// The key of a candidate.
pub fn key_of(popcount: &Popcount, c: &Candidate) -> (k: i64)
    ensures
        k == sort_key(popcount, *c),
{
    let path = c.0.as_str();
    let pop = popcount.get_popularity(path.as_str());
    let k: i64 = 0 - (pop as i64);
    k
}

/// Puts the candidates in the order in which they are proposed, the most
/// popular first and those of equal popularity as they came, and returns
/// the first of them.
pub fn extract_optimal_path(candidates: &mut Vec<Candidate>, popcount: &Popcount) -> (best:
    Candidate)
    requires
        old(candidates).len() > 0,
        homogeneous(old(candidates)@),
    ensures
        final(candidates)@ == ranked(popcount, old(candidates)@),
        best == final(candidates)@[0],
        best == old(candidates)@[first_best(popcount, old(candidates)@)],
{
    let mut out: Vec<Candidate> = Vec::new();
    let mut keys: Vec<i64> = Vec::new();
    let mut i: usize = 0;
    assert(candidates@.take(0) =~= Seq::<Candidate>::empty());
    while i < candidates.len()
        invariant
            i <= candidates.len(),
            candidates@ == old(candidates)@,
            out@ == ranked(popcount, candidates@.take(i as int)),
            keys@.len() == out@.len(),
            forall|j: int| 0 <= j < out@.len() ==> #[trigger] keys@[j] == sort_key(popcount, out@[j]),
        decreases candidates.len() - i,
    {
        let c = clone_candidate(&candidates[i]);
        let k = key_of(popcount, &c);
        let mut p: usize = 0;
        while p < keys.len() && keys[p] <= k
            invariant
                p <= keys.len(),
                keys@.len() == out@.len(),
                forall|j: int|
                    0 <= j < out@.len() ==> #[trigger] keys@[j] == sort_key(popcount, out@[j]),
                forall|j: int| 0 <= j < p ==> sort_key(popcount, #[trigger] out@[j]) <= k,
            decreases keys.len() - p,
        {
            p = p + 1;
        }
        proof {
            let prefix = candidates@.take(i as int);
            let next = candidates@.take(i + 1);
            assert(next.drop_last() =~= prefix);
            assert(next.last() == candidates@[i as int]);
            if p < keys.len() {
                assert(keys@[p as int] == sort_key(popcount, out@[p as int]));
            }
            lemma_slot_found(popcount, out@, k as int, p as int);
        }
        let ghost before = out@;
        let ghost keys_before = keys@;
        out.insert(p, c);
        keys.insert(p, k);
        assert forall|j: int| 0 <= j < out@.len() implies #[trigger] keys@[j] == sort_key(
            popcount,
            out@[j],
        ) by {
            if j < p {
                assert(keys@[j] == keys_before[j] && out@[j] == before[j]);
            } else if j > p {
                assert(keys@[j] == keys_before[j - 1] && out@[j] == before[j - 1]);
            }
        }
        i = i + 1;
    }
    proof {
        assert(candidates@.take(i as int) =~= candidates@);
        lemma_first_best(popcount, candidates@);
    }
    let best = clone_candidate(&out[0]);
    *candidates = out;
    best
}

} // verus!
