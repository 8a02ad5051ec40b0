//! The order of strings and sorted lists of them.
use vstd::prelude::*;
use crate::text::{chars_of, texts};

verus! {

/// A text stands before another one: it is a proper prefix of it, or has the
/// smaller character at the first place where they differ.
pub open spec fn text_before(a: Seq<char>, b: Seq<char>) -> bool
    decreases a.len(),
{
    if b.len() == 0 {
        false
    } else if a.len() == 0 {
        true
    } else if a.first() == b.first() {
        text_before(a.drop_first(), b.drop_first())
    } else {
        a.first() < b.first()
    }
}

proof fn lemma_before_transitive(a: Seq<char>, b: Seq<char>, c: Seq<char>)
    requires
        text_before(a, b),
        text_before(b, c),
    ensures
        text_before(a, c),
    decreases a.len(),
{
    if a.len() > 0 && a.first() == b.first() && b.first() == c.first() {
        lemma_before_transitive(a.drop_first(), b.drop_first(), c.drop_first());
    }
}

proof fn lemma_before_irreflexive(a: Seq<char>)
    ensures
        !text_before(a, a),
    decreases a.len(),
{
    if a.len() > 0 {
        lemma_before_irreflexive(a.drop_first());
    }
}

proof fn lemma_before_total(a: Seq<char>, b: Seq<char>)
    ensures
        text_before(a, b) || a == b || text_before(b, a),
    decreases a.len(),
{
    if a.len() == 0 {
        if b.len() == 0 {
            assert(a =~= b);
        }
    } else if b.len() > 0 && a.first() == b.first() {
        lemma_before_total(a.drop_first(), b.drop_first());
        if a.drop_first() == b.drop_first() {
            assert(a =~= seq![a.first()] + a.drop_first());
            assert(b =~= seq![b.first()] + b.drop_first());
        }
    }
}

/// Whether a text stands before another one.
pub fn is_before(a: &str, b: &str) -> (r: bool)
    ensures
        r == text_before(a@, b@),
{
    let x = chars_of(a);
    let y = chars_of(b);
    let mut i: usize = 0;
    proof {
        assert(a@.skip(0) =~= a@);
        assert(b@.skip(0) =~= b@);
    }
    while i < x.len() && i < y.len()
        invariant
            x@ == a@,
            y@ == b@,
            i <= x.len(),
            i <= y.len(),
            text_before(a@, b@) == text_before(a@.skip(i as int), b@.skip(i as int)),
        decreases x.len() - i,
    {
        proof {
            assert(a@.skip(i as int).first() == x@[i as int]);
            assert(b@.skip(i as int).first() == y@[i as int]);
            assert(a@.skip(i as int).drop_first() =~= a@.skip(i + 1));
            assert(b@.skip(i as int).drop_first() =~= b@.skip(i + 1));
        }
        let c = x[i];
        let d = y[i];
        if c != d {
            return c < d;
        }
        i = i + 1;
    }
    i == x.len() && i < y.len()
}

/// Each text stands before all those after it, so none occurs twice.
pub open spec fn ascending(v: Seq<Seq<char>>) -> bool {
    forall|i: int, j: int| 0 <= i < j < v.len() ==> text_before(#[trigger] v[i], #[trigger] v[j])
}

/// Two lists hold the same texts.
pub open spec fn same_members(v: Seq<Seq<char>>, w: Seq<Seq<char>>) -> bool {
    forall|s: Seq<char>| #[trigger] v.contains(s) <==> w.contains(s)
}

/// Adds a text to an ascending list, where it is not in it yet.
pub fn insert_ascending(v: &mut Vec<String>, s: &str)
    requires
        ascending(texts(old(v)@)),
    ensures
        ascending(texts(final(v)@)),
        forall|t: Seq<char>| #[trigger]
            texts(final(v)@).contains(t) <==> texts(old(v)@).contains(t) || t == s@,
{
    let ghost before = texts(v@);
    let mut i: usize = 0;
    while i < v.len() && is_before(v[i].as_str(), s)
        invariant
            before == texts(v@),
            i <= v.len(),
            forall|k: int| 0 <= k < i ==> text_before(#[trigger] before[k], s@),
        decreases v.len() - i,
    {
        i = i + 1;
    }
    if i < v.len() && !is_before(s, v[i].as_str()) {
        proof {
            lemma_before_total(before[i as int], s@);
            assert(before[i as int] == s@);
            assert(before.contains(s@));
        }
        return ;
    }
    proof {
        assert forall|k: int| i <= k < before.len() implies text_before(s@, #[trigger] before[k]) by {
            if k > i {
                lemma_before_transitive(s@, before[i as int], before[k]);
            }
        }
    }
    let t = s.to_owned();
    v.insert(i, t);
    proof {
        let after = texts(v@);
        assert(after =~= before.insert(i as int, s@));
        assert forall|a: int, b: int| 0 <= a < b < after.len() implies text_before(
            #[trigger] after[a],
            #[trigger] after[b],
        ) by {
            if a < i && b > i {
                assert(after[a] == before[a]);
                assert(after[b] == before[b - 1]);
            } else if a < i && b < i {
                assert(after[a] == before[a] && after[b] == before[b]);
            } else if a > i {
                assert(after[a] == before[a - 1] && after[b] == before[b - 1]);
            } else if a == i {
                assert(after[b] == before[b - 1]);
            }
        }
        assert forall|x: Seq<char>| #[trigger]
            after.contains(x) <==> before.contains(x) || x == s@ by {
            if before.contains(x) {
                let k = choose|k: int| 0 <= k < before.len() && before[k] == x;
                if k < i {
                    assert(after[k] == x);
                } else {
                    assert(after[k + 1] == x);
                }
            }
            assert(after[i as int] == s@);
            if after.contains(x) {
                let k = choose|k: int| 0 <= k < after.len() && after[k] == x;
                if k < i {
                    assert(before[k] == x);
                } else if k > i {
                    assert(before[k - 1] == x);
                }
            }
        }
    }
}

/// An ascending list is determined by its members.
pub proof fn ascending_is_unique(v: Seq<Seq<char>>, w: Seq<Seq<char>>)
    requires
        ascending(v),
        ascending(w),
        same_members(v, w),
    ensures
        v == w,
    decreases v.len(),
{
    if v.len() == 0 {
        if w.len() > 0 {
            assert(w.contains(w[0]));
            assert(v.contains(w[0]));
        }
        assert(v =~= w);
    } else {
        assert(v.contains(v[0]));
        assert(w.contains(v[0]));
        let k = choose|k: int| 0 <= k < w.len() && w[k] == v[0];
        assert(w.contains(w[0]));
        assert(v.contains(w[0]));
        let m = choose|m: int| 0 <= m < v.len() && v[m] == w[0];
        if k > 0 && m > 0 {
            lemma_before_transitive(v[0], v[m], w[k]);
            lemma_before_irreflexive(v[0]);
        }
        assert(v[0] == w[0]);
        let v1 = v.drop_first();
        let w1 = w.drop_first();
        assert forall|i: int, j: int| 0 <= i < j < v1.len() implies text_before(
            #[trigger] v1[i],
            #[trigger] v1[j],
        ) by {
            assert(v1[i] == v[i + 1] && v1[j] == v[j + 1]);
        }
        assert forall|i: int, j: int| 0 <= i < j < w1.len() implies text_before(
            #[trigger] w1[i],
            #[trigger] w1[j],
        ) by {
            assert(w1[i] == w[i + 1] && w1[j] == w[j + 1]);
        }
        assert forall|s: Seq<char>| #[trigger] v1.contains(s) <==> w1.contains(s) by {
            if v1.contains(s) {
                let i = choose|i: int| 0 <= i < v1.len() && v1[i] == s;
                assert(v[i + 1] == s);
                assert(v.contains(s));
                assert(w.contains(s));
                let j = choose|j: int| 0 <= j < w.len() && w[j] == s;
                if j == 0 {
                    assert(text_before(v[0], v[i + 1]));
                    lemma_before_irreflexive(s);
                }
                assert(w1[j - 1] == s);
            }
            if w1.contains(s) {
                let j = choose|j: int| 0 <= j < w1.len() && w1[j] == s;
                assert(w[j + 1] == s);
                assert(w.contains(s));
                assert(v.contains(s));
                let i = choose|i: int| 0 <= i < v.len() && v[i] == s;
                if i == 0 {
                    assert(text_before(w[0], w[j + 1]));
                    lemma_before_irreflexive(s);
                }
                assert(v1[i - 1] == s);
            }
        }
        ascending_is_unique(v1, w1);
        assert(v =~= seq![v[0]] + v1);
        assert(w =~= seq![w[0]] + w1);
    }
}

} // verus!
