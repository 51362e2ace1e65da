//! Ranking of scored result entries.
//!
//! A result entry is a pair of a 128-bit document identifier and its
//! exact [`Score`].  Entries are ranked by descending score with a
//! stable insertion sort: an entry inserted later is placed after the
//! entries it ties with, so ranking a sequence of entries is a
//! deterministic function of that sequence.

use vstd::prelude::*;
use crate::score::Score;
use crate::score::score_ge;
use crate::score::score_gt;
use crate::score::lemma_score_ge_refl;
use crate::score::lemma_score_ge_trans;
use crate::score::lemma_score_not_gt;

verus! {

/// Entries are in descending score order.
pub open spec fn sorted_desc(s: Seq<(u128, Score)>) -> bool {
    forall|i: int, j: int| 0 <= i <= j < s.len() ==> score_ge(s[i].1, s[j].1)
}

/// Insert `x` into `s` before the first entry that `x` strictly
/// outscores, so after every entry it ties with.
pub open spec fn insert_desc(s: Seq<(u128, Score)>, x: (u128, Score)) -> Seq<(u128, Score)>
    decreases s.len(),
{
    if s.len() == 0 {
        seq![x]
    } else if score_gt(x.1, s[0].1) {
        seq![x] + s
    } else {
        seq![s[0]] + insert_desc(s.drop_first(), x)
    }
}

/// Stable descending sort of `s`: entries are inserted left to right.
pub open spec fn sort_desc(s: Seq<(u128, Score)>) -> Seq<(u128, Score)>
    decreases s.len(),
{
    if s.len() == 0 {
        Seq::empty()
    } else {
        insert_desc(sort_desc(s.drop_last()), s.last())
    }
}

/// Inserting grows the sequence by one entry.
pub proof fn lemma_insert_desc_len(s: Seq<(u128, Score)>, x: (u128, Score))
    ensures
        insert_desc(s, x).len() == s.len() + 1,
    decreases s.len(),
{
    if s.len() == 0 {
    } else if score_gt(x.1, s[0].1) {
    } else {
        lemma_insert_desc_len(s.drop_first(), x);
    }
}

/// Inserting adds `x` to the entries of `s` and nothing else.
pub proof fn lemma_insert_desc_contains(s: Seq<(u128, Score)>, x: (u128, Score))
    ensures
        forall|y: (u128, Score)|
            #[trigger] insert_desc(s, x).contains(y) <==> (s.contains(y) || y == x),
    decreases s.len(),
{
    broadcast use vstd::seq_lib::lemma_seq_concat_contains_all_elements;

    if s.len() == 0 {
        assert(insert_desc(s, x) =~= seq![x]);
        assert(forall|y: (u128, Score)| #[trigger] seq![x].contains(y) <==> y == x) by {
            assert(seq![x][0] == x);
        }
        assert(forall|y: (u128, Score)| !s.contains(y));
    } else if score_gt(x.1, s[0].1) {
        assert(insert_desc(s, x) == seq![x] + s);
        assert(forall|y: (u128, Score)| #[trigger] seq![x].contains(y) <==> y == x) by {
            assert(seq![x][0] == x);
        }
    } else {
        assert(insert_desc(s, x) == seq![s[0]] + insert_desc(s.drop_first(), x));
        lemma_insert_desc_contains(s.drop_first(), x);
        assert(forall|y: (u128, Score)| #[trigger] seq![s[0]].contains(y) <==> y == s[0]) by {
            assert(seq![s[0]][0] == s[0]);
        }
        assert(forall|y: (u128, Score)| #[trigger] s.contains(y) <==> (y == s[0]
            || s.drop_first().contains(y))) by {
            assert forall|y: (u128, Score)| #[trigger] s.contains(y) implies (y == s[0]
                || s.drop_first().contains(y)) by {
                let i = choose|i: int| 0 <= i < s.len() && s[i] == y;
                if i > 0 {
                    assert(s.drop_first()[i - 1] == y);
                }
            }
            assert forall|y: (u128, Score)| y == s[0] || s.drop_first().contains(y) implies
                #[trigger] s.contains(y) by {
                if y == s[0] {
                    assert(s[0] == y);
                } else {
                    let i = choose|i: int| 0 <= i < s.drop_first().len() && s.drop_first()[i] == y;
                    assert(s[i + 1] == y);
                }
            }
        }
    }
}

/// Inserting into a descending sequence keeps it descending.
pub proof fn lemma_insert_desc_sorted(s: Seq<(u128, Score)>, x: (u128, Score))
    requires
        sorted_desc(s),
    ensures
        sorted_desc(insert_desc(s, x)),
    decreases s.len(),
{
    let r = insert_desc(s, x);
    if s.len() == 0 {
        assert forall|i: int, j: int| 0 <= i <= j < r.len() implies score_ge(r[i].1, r[j].1) by {
            lemma_score_ge_refl(x.1);
        }
    } else if score_gt(x.1, s[0].1) {
        assert(r == seq![x] + s);
        assert forall|i: int, j: int| 0 <= i <= j < r.len() implies score_ge(r[i].1, r[j].1) by {
            if i == 0 && j == 0 {
                lemma_score_ge_refl(x.1);
            } else if i == 0 {
                assert(r[j] == s[j - 1]);
                assert(score_ge(s[0].1, s[j - 1].1));
                lemma_score_ge_trans(x.1, s[0].1, s[j - 1].1);
            } else {
                assert(r[i] == s[i - 1] && r[j] == s[j - 1]);
            }
        }
    } else {
        let t = insert_desc(s.drop_first(), x);
        assert(sorted_desc(s.drop_first())) by {
            assert(forall|i: int, j: int| 0 <= i <= j < s.drop_first().len()
                ==> s.drop_first()[i] == s[i + 1] && s.drop_first()[j] == s[j + 1]);
        }
        lemma_insert_desc_sorted(s.drop_first(), x);
        lemma_insert_desc_contains(s.drop_first(), x);
        lemma_score_not_gt(x.1, s[0].1);
        assert(r == seq![s[0]] + t);
        assert forall|i: int, j: int| 0 <= i <= j < r.len() implies score_ge(r[i].1, r[j].1) by {
            if i == 0 && j == 0 {
                lemma_score_ge_refl(s[0].1);
            } else if i == 0 {
                let y = r[j];
                assert(t[j - 1] == y);
                assert(t.contains(y));
                if y == x {
                    // s[0] outscores or ties x
                } else {
                    let m = choose|m: int| 0 <= m < s.drop_first().len() && s.drop_first()[m] == y;
                    assert(s[m + 1] == y);
                    assert(score_ge(s[0].1, s[m + 1].1));
                }
            } else {
                assert(r[i] == t[i - 1] && r[j] == t[j - 1]);
            }
        }
    }
}

/// Sorting keeps the number of entries.
pub proof fn lemma_sort_desc_len(s: Seq<(u128, Score)>)
    ensures
        sort_desc(s).len() == s.len(),
    decreases s.len(),
{
    if s.len() == 0 {
    } else {
        lemma_sort_desc_len(s.drop_last());
        lemma_insert_desc_len(sort_desc(s.drop_last()), s.last());
    }
}

/// Sorting yields a descending sequence.
pub proof fn lemma_sort_desc_sorted(s: Seq<(u128, Score)>)
    ensures
        sorted_desc(sort_desc(s)),
    decreases s.len(),
{
    if s.len() == 0 {
    } else {
        lemma_sort_desc_sorted(s.drop_last());
        lemma_insert_desc_sorted(sort_desc(s.drop_last()), s.last());
    }
}

/// Sorting keeps exactly the entries of `s`.
pub proof fn lemma_sort_desc_contains(s: Seq<(u128, Score)>)
    ensures
        forall|y: (u128, Score)| #[trigger] sort_desc(s).contains(y) <==> s.contains(y),
    decreases s.len(),
{
    if s.len() == 0 {
        assert(forall|y: (u128, Score)| !s.contains(y));
        assert(forall|y: (u128, Score)| !sort_desc(s).contains(y));
    } else {
        lemma_sort_desc_contains(s.drop_last());
        lemma_insert_desc_contains(sort_desc(s.drop_last()), s.last());
        assert forall|y: (u128, Score)| #[trigger] s.contains(y) implies (s.drop_last().contains(y)
            || y == s.last()) by {
            let i = choose|i: int| 0 <= i < s.len() && s[i] == y;
            if i < s.len() - 1 {
                assert(s.drop_last()[i] == y);
            }
        }
        assert forall|y: (u128, Score)| s.drop_last().contains(y) || y == s.last() implies
            #[trigger] s.contains(y) by {
            if y == s.last() {
                assert(s[s.len() - 1] == y);
            } else if s.drop_last().contains(y) {
                let i = choose|i: int| 0 <= i < s.drop_last().len() && s.drop_last()[i] == y;
                assert(s[i] == y);
            }
        }
    }
}

/// `insert_desc` places `x` at the first position whose entry it
/// strictly outscores.
proof fn lemma_insert_desc_at(s: Seq<(u128, Score)>, x: (u128, Score), p: int)
    requires
        0 <= p <= s.len(),
        forall|k: int| 0 <= k < p ==> !score_gt(x.1, s[k].1),
        p < s.len() ==> score_gt(x.1, s[p].1),
    ensures
        insert_desc(s, x) == s.insert(p, x),
    decreases s.len(),
{
    if s.len() == 0 {
        assert(insert_desc(s, x) =~= s.insert(0, x));
    } else if p == 0 {
        assert(score_gt(x.1, s[0].1));
        assert(seq![x] + s =~= s.insert(0, x));
    } else {
        assert(!score_gt(x.1, s[0].1));
        lemma_insert_desc_at(s.drop_first(), x, p - 1);
        assert(seq![s[0]] + s.drop_first().insert(p - 1, x) =~= s.insert(p, x));
    }
}

/// Find the position where `x` belongs in the descending vector `v`:
/// the first index whose entry `x` strictly outscores.
fn find_insert_pos(v: &Vec<(u128, Score)>, x: &Score) -> (p: usize)
    ensures
        p <= v@.len(),
        forall|k: int| 0 <= k < p ==> !score_gt(*x, v@[k].1),
        p < v@.len() ==> score_gt(*x, v@[p as int].1),
{
    let mut i: usize = 0;
    while i < v.len()
        invariant
            i <= v@.len(),
            forall|k: int| 0 <= k < i ==> !score_gt(*x, v@[k].1),
        decreases v@.len() - i,
    {
        let e = v[i];
        if crate::score::score_cmp_gt(x, &e.1) {
            return i;
        }
        i = i + 1;
    }
    i
}

/// Insert entry `x` into the ranked vector `v`, after the entries it
/// ties with.
pub fn insert_sorted(v: &mut Vec<(u128, Score)>, x: (u128, Score))
    ensures
        final(v)@ == insert_desc(old(v)@, x),
{
    let p = find_insert_pos(v, &x.1);
    proof {
        lemma_insert_desc_at(v@, x, p as int);
    }
    v.insert(p, x);
}

} // verus!
