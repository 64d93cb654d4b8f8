//! The order of texts and sorted, duplicate-free lists of them.
//!
//! Texts are ordered lexicographically by Unicode scalar value, which is the
//! order of their UTF-8 bytes and so the order `str` itself uses.

use vstd::prelude::*;

use crate::text::{chars_of, str_equals};

verus! {

/// `a` comes strictly before `b`: at the first position where they differ
/// `a` has the smaller character, or `a` is a proper prefix of `b`.
pub open spec fn lex_lt(a: Seq<char>, b: Seq<char>) -> bool
    decreases a.len(),
{
    if a.len() == 0 {
        b.len() > 0
    } else if b.len() == 0 {
        false
    } else if a[0] != b[0] {
        (a[0] as int) < (b[0] as int)
    } else {
        lex_lt(a.drop_first(), b.drop_first())
    }
}

/// No text comes before itself.
pub proof fn lemma_lex_irreflexive(a: Seq<char>)
    ensures
        !lex_lt(a, a),
    decreases a.len(),
{
    if a.len() > 0 {
        lemma_lex_irreflexive(a.drop_first());
    }
}

/// The order is transitive.
pub proof fn lemma_lex_transitive(a: Seq<char>, b: Seq<char>, c: Seq<char>)
    requires
        lex_lt(a, b),
        lex_lt(b, c),
    ensures
        lex_lt(a, c),
    decreases a.len(),
{
    if a.len() > 0 && b.len() > 0 && c.len() > 0 && a[0] == b[0] && b[0] == c[0] {
        lemma_lex_transitive(a.drop_first(), b.drop_first(), c.drop_first());
    }
}

/// Two different texts are ordered one way or the other.
pub proof fn lemma_lex_total(a: Seq<char>, b: Seq<char>)
    requires
        a != b,
    ensures
        lex_lt(a, b) || lex_lt(b, a),
    decreases a.len(),
{
    if a.len() == 0 {
        assert(b.len() > 0) by {
            if b.len() == 0 {
                assert(a =~= b);
            }
        }
    } else if b.len() > 0 && a[0] == b[0] {
        if a.drop_first() == b.drop_first() {
            assert(a =~= seq![a[0]] + a.drop_first());
            assert(b =~= seq![b[0]] + b.drop_first());
        }
        lemma_lex_total(a.drop_first(), b.drop_first());
    }
}

/// Whether `a` comes strictly before `b`.
pub fn text_less(a: &str, b: &str) -> (r: bool)
    ensures
        r == lex_lt(a@, b@),
{
    let va = chars_of(a);
    let vb = chars_of(b);
    let mut i: usize = 0;
    assert(a@.skip(0) =~= a@);
    assert(b@.skip(0) =~= b@);
    while i < va.len() && i < vb.len() && va[i] == vb[i]
        invariant
            va@ == a@,
            vb@ == b@,
            0 <= i <= va.len(),
            i <= vb.len(),
            lex_lt(a@, b@) == lex_lt(a@.skip(i as int), b@.skip(i as int)),
        decreases va.len() - i,
    {
        proof {
            assert(a@.skip(i as int).drop_first() =~= a@.skip(i + 1));
            assert(b@.skip(i as int).drop_first() =~= b@.skip(i + 1));
        }
        i = i + 1;
    }
    if i == va.len() {
        i < vb.len()
    } else if i == vb.len() {
        false
    } else {
        va[i] < vb[i]
    }
}

/// The texts of a list of strings.
pub open spec fn texts(v: Seq<String>) -> Seq<Seq<char>> {
    v.map_values(|s: String| s@)
}

/// Each text comes strictly before every later one.
pub open spec fn strictly_ascending(s: Seq<Seq<char>>) -> bool {
    forall|i: int, j: int| 0 <= i < j < s.len() ==> lex_lt(#[trigger] s[i], #[trigger] s[j])
}

/// `r` lists each text of `items` exactly once, in ascending order.
pub open spec fn sorted_distinct_of(r: Seq<Seq<char>>, items: Seq<Seq<char>>) -> bool {
    &&& strictly_ascending(r)
    &&& forall|x: Seq<char>| r.contains(x) <==> items.contains(x)
}

/// Two strictly ascending lists with the same texts are the same list.
pub proof fn lemma_sorted_distinct_unique(r1: Seq<Seq<char>>, r2: Seq<Seq<char>>)
    requires
        strictly_ascending(r1),
        strictly_ascending(r2),
        forall|x: Seq<char>| r1.contains(x) <==> r2.contains(x),
    ensures
        r1 == r2,
    decreases r1.len(),
{
    if r1.len() == 0 {
        if r2.len() > 0 {
            assert(r2.contains(r2[0]));
        }
        assert(r1 =~= r2);
    } else if r2.len() == 0 {
        assert(r1.contains(r1[0]));
    } else {
        let a = r1[0];
        let b = r2[0];
        assert(r1.contains(a));
        assert(r2.contains(b));
        if a != b {
            lemma_lex_total(a, b);
            if lex_lt(a, b) {
                // a is in r2 at some later position, where it would be above b
                let k = choose|k: int| 0 <= k < r2.len() && r2[k] == a;
                if k > 0 {
                    lemma_lex_transitive(a, b, a);
                }
                lemma_lex_irreflexive(a);
            } else {
                let k = choose|k: int| 0 <= k < r1.len() && r1[k] == b;
                if k > 0 {
                    lemma_lex_transitive(b, a, b);
                }
                lemma_lex_irreflexive(b);
            }
        }
        let t1 = r1.drop_first();
        let t2 = r2.drop_first();
        assert forall|x: Seq<char>| t1.contains(x) implies t2.contains(x) by {
            let i = choose|i: int| 0 <= i < t1.len() && t1[i] == x;
            assert(r1[i + 1] == x);
            assert(lex_lt(a, x));
            assert(r2.contains(x));
            let j = choose|j: int| 0 <= j < r2.len() && r2[j] == x;
            if j == 0 {
                lemma_lex_irreflexive(a);
            }
            assert(t2[j - 1] == x);
        }
        assert forall|x: Seq<char>| t2.contains(x) implies t1.contains(x) by {
            let i = choose|i: int| 0 <= i < t2.len() && t2[i] == x;
            assert(r2[i + 1] == x);
            assert(lex_lt(b, x));
            assert(r1.contains(x));
            let j = choose|j: int| 0 <= j < r1.len() && r1[j] == x;
            if j == 0 {
                lemma_lex_irreflexive(b);
            }
            assert(t1[j - 1] == x);
        }
        lemma_sorted_distinct_unique(t1, t2);
        assert(r1 =~= seq![a] + t1);
        assert(r2 =~= seq![b] + t2);
    }
}

/// Insert `x` into the strictly ascending list `v` unless it is already there.
pub fn insert_sorted_distinct(v: &mut Vec<String>, x: &str)
    requires
        strictly_ascending(texts(old(v)@)),
    ensures
        strictly_ascending(texts(final(v)@)),
        forall|y: Seq<char>| texts(final(v)@).contains(y) <==> (texts(old(v)@).contains(y) || y == x@),
{
    let ghost old_t = texts(v@);
    let mut i: usize = 0;
    while i < v.len() && text_less(v[i].as_str(), x)
        invariant
            0 <= i <= v.len(),
            texts(v@) == old_t,
            strictly_ascending(old_t),
            forall|j: int| 0 <= j < i ==> lex_lt(#[trigger] old_t[j], x@),
        decreases v.len() - i,
    {
        i = i + 1;
    }
    if i < v.len() && str_equals(v[i].as_str(), x) {
        assert forall|y: Seq<char>| texts(v@).contains(y) <==> (old_t.contains(y) || y == x@) by {
            if y == x@ {
                assert(old_t[i as int] == y);
            }
        }
        return;
    }
    proof {
        if i < v.len() {
            assert(old_t[i as int] != x@);
            assert(!lex_lt(old_t[i as int], x@));
            lemma_lex_total(old_t[i as int], x@);
            assert forall|j: int| i <= j < old_t.len() implies lex_lt(x@, #[trigger] old_t[j]) by {
                if j > i {
                    lemma_lex_transitive(x@, old_t[i as int], old_t[j]);
                }
            }
        }
    }
    v.insert(i, x.to_string());
    proof {
        let nt = texts(v@);
        assert(nt =~= old_t.insert(i as int, x@));
        assert forall|a: int, b: int| 0 <= a < b < nt.len() implies lex_lt(#[trigger] nt[a], #[trigger] nt[b]) by {
            if b < i {
            } else if a < i && b == i {
            } else if a < i && b > i {
                assert(nt[b] == old_t[b - 1]);
            } else if a == i {
                assert(nt[b] == old_t[b - 1]);
            } else {
                assert(nt[a] == old_t[a - 1]);
                assert(nt[b] == old_t[b - 1]);
            }
        }
        assert forall|y: Seq<char>| nt.contains(y) <==> (old_t.contains(y) || y == x@) by {
            if nt.contains(y) {
                let k = choose|k: int| 0 <= k < nt.len() && nt[k] == y;
                if k < i {
                    assert(old_t[k] == y);
                } else if k > i {
                    assert(old_t[k - 1] == y);
                }
            }
            if old_t.contains(y) {
                let k = choose|k: int| 0 <= k < old_t.len() && old_t[k] == y;
                if k < i {
                    assert(nt[k] == y);
                } else {
                    assert(nt[k + 1] == y);
                }
            }
            if y == x@ {
                assert(nt[i as int] == y);
            }
        }
    }
}

} // verus!
