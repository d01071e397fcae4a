//! The order in which profile names are listed: strings compared character
//! by character (the order of `String`'s `Ord`), and a sort that puts a list
//! of names into that order.

use vstd::prelude::*;
use crate::text::chars_of;

verus! {

broadcast use vstd::seq_lib::group_to_multiset_ensures;

/// `a` comes strictly before `b`: at the first position where they differ,
/// `a` holds the smaller character, or `a` is a proper prefix of `b`.
pub open spec fn text_lt(a: Seq<char>, b: Seq<char>) -> bool
    decreases a.len(),
{
    if a.len() == 0 {
        b.len() > 0
    } else if b.len() == 0 {
        false
    } else if a[0] != b[0] {
        a[0] < b[0]
    } else {
        text_lt(a.drop_first(), b.drop_first())
    }
}

/// Every name is at least as large as each name before it.
pub open spec fn sorted_texts(s: Seq<Seq<char>>) -> bool {
    forall|i: int, j: int| 0 <= i < j < s.len() ==> !text_lt(#[trigger] s[j], #[trigger] s[i])
}

/// No name comes before itself.
pub proof fn lemma_text_lt_irreflexive(a: Seq<char>)
    ensures
        !text_lt(a, a),
    decreases a.len(),
{
    if a.len() > 0 {
        lemma_text_lt_irreflexive(a.drop_first());
    }
}

/// The order is transitive.
pub proof fn lemma_text_lt_transitive(a: Seq<char>, b: Seq<char>, c: Seq<char>)
    requires
        text_lt(a, b),
        text_lt(b, c),
    ensures
        text_lt(a, c),
    decreases a.len(),
{
    if a.len() > 0 && a[0] == b[0] && b[0] == c[0] {
        lemma_text_lt_transitive(a.drop_first(), b.drop_first(), c.drop_first());
    }
}

/// Any two names are equal or one comes before the other.
pub proof fn lemma_text_lt_total(a: Seq<char>, b: Seq<char>)
    ensures
        a == b || text_lt(a, b) || text_lt(b, a),
    decreases a.len(),
{
    if a.len() > 0 && b.len() > 0 && a[0] == b[0] {
        lemma_text_lt_total(a.drop_first(), b.drop_first());
        if a.drop_first() == b.drop_first() {
            assert(a =~= seq![a[0]] + a.drop_first());
            assert(b =~= seq![b[0]] + b.drop_first());
        }
    } else if a.len() == 0 && b.len() == 0 {
        assert(a =~= b);
    }
}

/// `a` and `b` agree on their first `i` characters, and then `a` ends while
/// `b` goes on, or both go on and `a`'s next character has the smaller code
/// point.
pub open spec fn differs_below_at(a: Seq<char>, b: Seq<char>, i: int) -> bool {
    &&& 0 <= i <= a.len()
    &&& i <= b.len()
    &&& a.subrange(0, i) == b.subrange(0, i)
    &&& ((i == a.len() && i < b.len()) || (i < a.len() && i < b.len() && (a[i] as int) < (
    b[i] as int)))
}

/// The listing order is `String`'s own order, lexicographic by code point:
/// `a` comes strictly before `b` exactly when, after some common prefix,
/// `a` ends and `b` goes on, or `a`'s next character has the smaller code point.
pub proof fn lemma_text_lt_is_code_point_order(a: Seq<char>, b: Seq<char>)
    ensures
        text_lt(a, b) == exists|i: int| #[trigger] differs_below_at(a, b, i),
    decreases a.len(),
{
    if a.len() == 0 {
        if b.len() > 0 {
            assert(a.subrange(0, 0) =~= b.subrange(0, 0));
            assert(differs_below_at(a, b, 0));
        }
    } else if b.len() == 0 {
    } else if a[0] != b[0] {
        if a[0] < b[0] {
            assert(a.subrange(0, 0) =~= b.subrange(0, 0));
            assert(differs_below_at(a, b, 0));
        } else {
            assert forall|i: int| !#[trigger] differs_below_at(a, b, i) by {
                if 0 < i && i <= a.len() && i <= b.len() && a.subrange(0, i) == b.subrange(0, i) {
                    assert(a.subrange(0, i)[0] == b.subrange(0, i)[0]);
                }
            }
        }
    } else {
        let a2 = a.drop_first();
        let b2 = b.drop_first();
        lemma_text_lt_is_code_point_order(a2, b2);
        assert forall|i: int|
            0 <= i implies #[trigger] differs_below_at(a2, b2, i) == differs_below_at(
            a,
            b,
            i + 1,
        ) by {
            if 0 <= i <= a2.len() && i <= b2.len() {
                assert(a.subrange(0, i + 1) =~= seq![a[0]] + a2.subrange(0, i));
                assert(b.subrange(0, i + 1) =~= seq![b[0]] + b2.subrange(0, i));
                if a2.subrange(0, i) == b2.subrange(0, i) {
                    assert(a.subrange(0, i + 1) == b.subrange(0, i + 1));
                }
                if a.subrange(0, i + 1) == b.subrange(0, i + 1) {
                    assert(a2.subrange(0, i) =~= a.subrange(0, i + 1).drop_first());
                    assert(b2.subrange(0, i) =~= b.subrange(0, i + 1).drop_first());
                }
                if i < a2.len() && i < b2.len() {
                    assert(a2[i] == a[i + 1] && b2[i] == b[i + 1]);
                }
            }
        }
        if text_lt(a, b) {
            let i = choose|i: int| #[trigger] differs_below_at(a2, b2, i);
            assert(differs_below_at(a, b, i + 1));
        } else {
            assert forall|i: int| !#[trigger] differs_below_at(a, b, i) by {
                if differs_below_at(a, b, i) {
                    if i == 0 {
                        assert((a[0] as int) < (b[0] as int));
                    } else {
                        assert(differs_below_at(a2, b2, i - 1));
                    }
                }
            }
        }
    }
}

/// Whether `a` comes strictly before `b`.
pub fn text_less(a: &Vec<char>, b: &Vec<char>) -> (res: bool)
    ensures
        res == text_lt(a@, b@),
{
    let mut i: usize = 0;
    assert(a@.subrange(0, a@.len() as int) =~= a@);
    assert(b@.subrange(0, b@.len() as int) =~= b@);
    while i < a.len() && i < b.len() && a[i] == b[i]
        invariant
            i <= a@.len(),
            i <= b@.len(),
            text_lt(a@, b@) == text_lt(
                a@.subrange(i as int, a@.len() as int),
                b@.subrange(i as int, b@.len() as int),
            ),
        decreases a@.len() - i,
    {
        assert(a@.subrange(i as int, a@.len() as int).drop_first() =~= a@.subrange(
            i + 1,
            a@.len() as int,
        ));
        assert(b@.subrange(i as int, b@.len() as int).drop_first() =~= b@.subrange(
            i + 1,
            b@.len() as int,
        ));
        i = i + 1;
    }
    if i == a.len() {
        i < b.len()
    } else if i == b.len() {
        false
    } else {
        a[i] < b[i]
    }
}

/// Whether string `a` comes strictly before string `b`.
pub fn str_less(a: &str, b: &str) -> (res: bool)
    ensures
        res == text_lt(a@, b@),
{
    text_less(&chars_of(a), &chars_of(b))
}

/// `names` in ascending order: the same names, each as often, sorted.
pub fn sort_texts(names: Vec<String>) -> (res: Vec<String>)
    ensures
        sorted_texts(res.deep_view()),
        res.deep_view().to_multiset() == names.deep_view().to_multiset(),
{
    let mut sorted: Vec<String> = Vec::new();
    let mut k: usize = 0;
    while k < names.len()
        invariant
            k <= names@.len(),
            sorted_texts(sorted.deep_view()),
            sorted.deep_view().to_multiset() == names.deep_view().subrange(
                0,
                k as int,
            ).to_multiset(),
        decreases names@.len() - k,
    {
        let x = names[k].clone();
        let mut p: usize = 0;
        while p < sorted.len() && !str_less(x.as_str(), sorted[p].as_str())
            invariant
                p <= sorted@.len(),
                forall|j: int| 0 <= j < p ==> !text_lt(x@, #[trigger] sorted.deep_view()[j]),
            decreases sorted@.len() - p,
        {
            p = p + 1;
        }
        let ghost before = sorted.deep_view();
        sorted.insert(p, x);
        let ghost after = sorted.deep_view();
        proof {
            assert(after =~= before.insert(p as int, x@));
            assert forall|i: int, j: int| 0 <= i < j < after.len() implies !text_lt(
                #[trigger] after[j],
                #[trigger] after[i],
            ) by {
                if j < p {
                    assert(after[i] == before[i] && after[j] == before[j]);
                } else if j == p {
                    assert(after[i] == before[i]);
                } else if i > p {
                    assert(after[i] == before[i - 1] && after[j] == before[j - 1]);
                } else if i == p {
                    // x < before[p] <= before[j - 1]
                    assert(after[j] == before[j - 1]);
                    assert(text_lt(x@, before[p as int]));
                    if text_lt(before[j - 1], x@) {
                        lemma_text_lt_transitive(before[j - 1], x@, before[p as int]);
                        if j - 1 == p {
                            lemma_text_lt_irreflexive(before[p as int]);
                        }
                    }
                } else {
                    assert(after[i] == before[i] && after[j] == before[j - 1]);
                }
            }
            assert(after.remove(p as int) =~= before);
            assert(after.to_multiset() =~= before.to_multiset().insert(x@)) by {
                assert(after.to_multiset().count(x@) > 0) by {
                    assert(after.contains(x@)) by {
                        assert(after[p as int] == x@);
                    }
                }
            }
            assert(names.deep_view().subrange(0, k + 1) =~= names.deep_view().subrange(
                0,
                k as int,
            ).push(x@));
        }
        k = k + 1;
    }
    assert(names.deep_view().subrange(0, names@.len() as int) =~= names.deep_view());
    sorted
}

/// A reordering of a list without repeated names has no repeated names.
pub proof fn lemma_no_duplicates_same_multiset(a: Seq<Seq<char>>, b: Seq<Seq<char>>)
    requires
        a.no_duplicates(),
        a.to_multiset() == b.to_multiset(),
    ensures
        b.no_duplicates(),
{
    a.lemma_multiset_has_no_duplicates();
    b.lemma_multiset_has_no_duplicates_conv();
}

} // verus!