//! The order of text (by Unicode scalar values, which is also the byte order
//! of UTF-8 text and so the order of `str` and `String`) and sorting by it.

use vstd::prelude::*;

use crate::text::{chars_of, str_eq, views_of};

verus! {

broadcast use vstd::string::group_string_axioms;

/// `a` comes before `b` or equals it, comparing character by character.
pub open spec fn lex_le(a: Seq<char>, b: Seq<char>) -> bool
    decreases a.len(),
{
    if a.len() == 0 {
        true
    } else if b.len() == 0 {
        false
    } else if a[0] < b[0] {
        true
    } else if a[0] > b[0] {
        false
    } else {
        lex_le(a.drop_first(), b.drop_first())
    }
}

pub proof fn lemma_lex_le_reflexive(a: Seq<char>)
    ensures
        lex_le(a, a),
    decreases a.len(),
{
    if a.len() > 0 {
        lemma_lex_le_reflexive(a.drop_first());
    }
}

pub proof fn lemma_lex_le_total(a: Seq<char>, b: Seq<char>)
    ensures
        lex_le(a, b) || lex_le(b, a),
    decreases a.len(),
{
    if a.len() > 0 && b.len() > 0 && a[0] == b[0] {
        lemma_lex_le_total(a.drop_first(), b.drop_first());
    }
}

pub proof fn lemma_lex_le_transitive(a: Seq<char>, b: Seq<char>, c: Seq<char>)
    requires
        lex_le(a, b),
        lex_le(b, c),
    ensures
        lex_le(a, c),
    decreases a.len(),
{
    if a.len() > 0 && b.len() > 0 && c.len() > 0 && a[0] == b[0] && b[0] == c[0] {
        lemma_lex_le_transitive(a.drop_first(), b.drop_first(), c.drop_first());
    }
}

pub proof fn lemma_lex_le_antisymmetric(a: Seq<char>, b: Seq<char>)
    requires
        lex_le(a, b),
        lex_le(b, a),
    ensures
        a == b,
    decreases a.len(),
{
    if a.len() > 0 && b.len() > 0 {
        lemma_lex_le_antisymmetric(a.drop_first(), b.drop_first());
        assert(a =~= seq![a[0]] + a.drop_first());
        assert(b =~= seq![b[0]] + b.drop_first());
    }
}

/// Whether `a` comes before `b` or equals it.
pub fn str_le(a: &str, b: &str) -> (r: bool)
    ensures
        r == lex_le(a@, b@),
{
    let x = chars_of(a);
    let y = chars_of(b);
    let mut i: usize = 0;
    assert(x@.subrange(0, x@.len() as int) =~= x@);
    assert(y@.subrange(0, y@.len() as int) =~= y@);
    while i < x.len() && i < y.len()
        invariant
            i <= x@.len(),
            i <= y@.len(),
            x@ == a@,
            y@ == b@,
            lex_le(x@, y@) == lex_le(x@.subrange(i as int, x@.len() as int), y@.subrange(i as int, y@.len() as int)),
        decreases x@.len() - i,
    {
        let ghost xs = x@.subrange(i as int, x@.len() as int);
        let ghost ys = y@.subrange(i as int, y@.len() as int);
        assert(xs[0] == x@[i as int]);
        assert(ys[0] == y@[i as int]);
        if x[i] != y[i] {
            assert(xs.len() > 0 && ys.len() > 0);
            assert(lex_le(xs, ys) == (xs[0] < ys[0]));
            assert(lex_le(x@, y@) == lex_le(xs, ys));
            let r = x[i] < y[i];
            assert(r == (x@[i as int] < y@[i as int]));
            return r;
        }
        proof {
            assert(xs.drop_first() =~= x@.subrange(i + 1, x@.len() as int));
            assert(ys.drop_first() =~= y@.subrange(i + 1, y@.len() as int));
        }
        i = i + 1;
    }
    i == x.len()
}

/// A value that is sorted by a text key.
pub trait Keyed {
    spec fn key(&self) -> Seq<char>;

    fn key_str(&self) -> (r: &str)
        ensures
            r@ == self.key(),
    ;
}

/// The keys of `s` are in order.
pub open spec fn sorted_by_key<T: Keyed>(s: Seq<T>) -> bool {
    forall|i: int, j: int| 0 <= i < j < s.len() ==> lex_le(#[trigger] s[i].key(), #[trigger] s[j].key())
}

/// The elements of `s` whose key is `k`, in their order in `s`.
pub open spec fn keyed_with<T: Keyed>(s: Seq<T>, k: Seq<char>) -> Seq<T> {
    s.filter(has_key(k))
}

/// Whether an element's key is `k`.
pub open spec fn has_key<T: Keyed>(k: Seq<char>) -> spec_fn(T) -> bool {
    |x: T| x.key() == k
}

proof fn lemma_keyed_with_insert<T: Keyed>(s: Seq<T>, i: int, e: T, k: Seq<char>)
    requires
        0 <= i <= s.len(),
        forall|m: int| i <= m < s.len() ==> (#[trigger] s[m]).key() != e.key(),
    ensures
        keyed_with(s.insert(i, e), k) == if e.key() == k {
            keyed_with(s, k).push(e)
        } else {
            keyed_with(s, k)
        },
{
    let pred = has_key::<T>(k);
    let a = s.subrange(0, i);
    let b = s.subrange(i, s.len() as int);
    assert(s =~= a + b);
    assert(s.insert(i, e) =~= a.push(e) + b);
    Seq::filter_distributes_over_add(a, b, pred);
    Seq::filter_distributes_over_add(a.push(e), b, pred);
    a.lemma_filter_push(e, pred);
    if e.key() == k {
        assert forall|m: int| 0 <= m < b.len() implies !pred(#[trigger] b[m]) by {
            assert(b[m] == s[i + m]);
        }
        b.lemma_all_neg_filter_empty(pred);
        assert(b.filter(pred) =~= Seq::<T>::empty());
        assert(keyed_with(s.insert(i, e), k) =~= keyed_with(s, k).push(e));
    }
}

/// Sorts `v` by the keys of its elements, keeping elements with equal keys in
/// their order (a stable insertion sort).
pub fn sort_by_key<T: Keyed>(v: &mut Vec<T>)
    ensures
        final(v)@.to_multiset() == old(v)@.to_multiset(),
        sorted_by_key(final(v)@),
        forall|k: Seq<char>| #[trigger] keyed_with(final(v)@, k) == keyed_with(old(v)@, k),
{
    broadcast use vstd::seq_lib::group_to_multiset_ensures;
    broadcast use vstd::multiset::group_multiset_axioms;

    let mut out: Vec<T> = Vec::new();
    while v.len() > 0
        invariant
            out@.to_multiset().add(v@.to_multiset()) == old(v)@.to_multiset(),
            sorted_by_key(out@),
            forall|k: Seq<char>| #[trigger] keyed_with(old(v)@, k) == keyed_with(out@, k) + keyed_with(v@, k),
        decreases v@.len(),
    {
        let ghost before_v = v@;
        let x = v.remove(0);
        let mut k: usize = 0;
        while k < out.len() && str_le(out[k].key_str(), x.key_str())
            invariant
                k <= out@.len(),
                forall|m: int| 0 <= m < k ==> lex_le(#[trigger] out@[m].key(), x.key()),
            decreases out@.len() - k,
        {
            k = k + 1;
        }
        let ghost before_out = out@;
        proof {
            if k < out@.len() {
                lemma_lex_le_total(out@[k as int].key(), x.key());
            }
            assert forall|m: int| k <= m < before_out.len() implies (#[trigger] before_out[m]).key() != x.key() by {
                lemma_lex_le_reflexive(x.key());
                if m > k && before_out[m].key() == x.key() {
                    assert(lex_le(before_out[k as int].key(), before_out[m].key()));
                }
            }
            assert forall|kk: Seq<char>| #[trigger] keyed_with(old(v)@, kk) == keyed_with(before_out.insert(k as int, x), kk)
                + keyed_with(before_v.remove(0), kk) by {
                lemma_keyed_with_insert(before_out, k as int, x, kk);
                assert(before_v =~= seq![x] + before_v.remove(0));
                Seq::filter_distributes_over_add(seq![x], before_v.remove(0), has_key::<T>(kk));
                Seq::<T>::empty().lemma_filter_push(x, has_key::<T>(kk));
                assert(seq![x] =~= Seq::<T>::empty().push(x));
                assert(Seq::<T>::empty().filter(has_key::<T>(kk)) =~= Seq::<T>::empty());
                if x.key() == kk {
                    assert(keyed_with(before_out, kk).push(x) + keyed_with(before_v.remove(0), kk) =~= keyed_with(
                        before_out,
                        kk,
                    ) + keyed_with(before_v, kk));
                } else {
                    assert(keyed_with(before_out, kk) + keyed_with(before_v.remove(0), kk) =~= keyed_with(
                        before_out,
                        kk,
                    ) + keyed_with(before_v, kk));
                }
            }
        }
        out.insert(k, x);
        proof {
            assert forall|a: int, b: int| 0 <= a < b < out@.len() implies lex_le(
                #[trigger] out@[a].key(),
                #[trigger] out@[b].key(),
            ) by {
                if b < k {
                } else if b == k {
                } else if a == k {
                    if b - 1 > k {
                        lemma_lex_le_transitive(
                            x.key(),
                            before_out[k as int].key(),
                            before_out[b - 1].key(),
                        );
                    }
                } else if a < k {
                } else {
                }
            }
            assert(v@ == before_v.remove(0));
            vstd::seq_lib::to_multiset_remove(before_v, 0);
            assert(before_v[0] == x);
            assert(before_v.contains(x));
            vstd::seq_lib::to_multiset_contains(before_v, x);
            assert(before_v.to_multiset() =~= v@.to_multiset().insert(x));
            assert(out@ == before_out.insert(k as int, x));
            vstd::seq_lib::to_multiset_insert(before_out, k as int, x);
            assert(out@.to_multiset().add(v@.to_multiset()) =~= before_out.to_multiset().add(
                before_v.to_multiset(),
            ));
        }
    }
    proof {
        assert(v@.to_multiset() =~= vstd::multiset::Multiset::empty());
        assert forall|k: Seq<char>| #[trigger] keyed_with(out@, k) == keyed_with(old(v)@, k) by {
            assert(v@ =~= Seq::<T>::empty());
            assert(keyed_with(v@, k) =~= Seq::<T>::empty());
            assert(keyed_with(out@, k) + keyed_with(v@, k) =~= keyed_with(out@, k));
        }
    }
    std::mem::swap(v, &mut out);
}

/// `a` comes strictly before `b`.
pub open spec fn lex_lt(a: Seq<char>, b: Seq<char>) -> bool {
    lex_le(a, b) && a != b
}

/// The texts of `s` are in strictly increasing order, so none occurs twice.
pub open spec fn strictly_sorted(s: Seq<Seq<char>>) -> bool {
    forall|i: int, j: int| 0 <= i < j < s.len() ==> lex_lt(#[trigger] s[i], #[trigger] s[j])
}

/// Two strictly sorted lists with the same elements are the same list.
pub proof fn lemma_strictly_sorted_unique(a: Seq<Seq<char>>, b: Seq<Seq<char>>)
    requires
        strictly_sorted(a),
        strictly_sorted(b),
        forall|t: Seq<char>| a.contains(t) <==> b.contains(t),
    ensures
        a == b,
    decreases a.len(),
{
    if a.len() == 0 {
        if b.len() > 0 {
            assert(b.contains(b[0]));
            assert(a.contains(b[0]));
        }
        assert(a =~= b);
    } else if b.len() == 0 {
        assert(a.contains(a[0]));
        assert(b.contains(a[0]));
    } else {
        assert(a.contains(a[0]));
        assert(b.contains(a[0]));
        let k = choose|k: int| 0 <= k < b.len() && b[k] == a[0];
        assert(b.contains(b[0]));
        assert(a.contains(b[0]));
        let m = choose|m: int| 0 <= m < a.len() && a[m] == b[0];
        if a[0] != b[0] {
            assert(m > 0);
            assert(k > 0);
            assert(lex_le(a[0], a[m]));
            assert(lex_le(b[0], b[k]));
            lemma_lex_le_antisymmetric(a[0], b[0]);
        }
        let a1 = a.drop_first();
        let b1 = b.drop_first();
        assert forall|t: Seq<char>| a1.contains(t) <==> b1.contains(t) by {
            if a1.contains(t) {
                let i = choose|i: int| 0 <= i < a1.len() && a1[i] == t;
                assert(a[i + 1] == t);
                assert(a.contains(t));
                assert(b.contains(t));
                let j = choose|j: int| 0 <= j < b.len() && b[j] == t;
                assert(lex_lt(a[0], a[i + 1]));
                if j == 0 {
                    assert(false);
                }
                assert(b1[j - 1] == t);
            }
            if b1.contains(t) {
                let i = choose|i: int| 0 <= i < b1.len() && b1[i] == t;
                assert(b[i + 1] == t);
                assert(b.contains(t));
                assert(a.contains(t));
                let j = choose|j: int| 0 <= j < a.len() && a[j] == t;
                assert(lex_lt(b[0], b[i + 1]));
                if j == 0 {
                    assert(false);
                }
                assert(a1[j - 1] == t);
            }
        }
        lemma_strictly_sorted_unique(a1, b1);
        assert(a =~= seq![a[0]] + a1);
        assert(b =~= seq![b[0]] + b1);
    }
}

/// Puts `t` into the strictly sorted list `v` where it is not already there.
pub fn insert_sorted_unique(v: &mut Vec<String>, t: String)
    requires
        strictly_sorted(views_of(old(v)@)),
    ensures
        strictly_sorted(views_of(final(v)@)),
        forall|x: Seq<char>|
            views_of(final(v)@).contains(x) <==> (views_of(old(v)@).contains(x) || x == t@),
{
    let ghost old_views = views_of(v@);
    let mut k: usize = 0;
    while k < v.len() && str_le(v[k].as_str(), t.as_str()) && !str_eq(v[k].as_str(), t.as_str())
        invariant
            k <= v@.len(),
            v@ == old(v)@,
            old_views == views_of(v@),
            forall|m: int| 0 <= m < k ==> lex_lt(#[trigger] old_views[m], t@),
        decreases v@.len() - k,
    {
        k = k + 1;
    }
    if k < v.len() {
        proof {
            lemma_lex_le_total(old_views[k as int], t@);
            lemma_lex_le_reflexive(t@);
        }
        if str_eq(v[k].as_str(), t.as_str()) {
            assert forall|x: Seq<char>| old_views.contains(x) || x == t@ implies old_views.contains(x) by {
                if x == t@ {
                    assert(old_views[k as int] == x);
                }
            }
            return;
        }
    }
    let ghost tv = t@;
    v.insert(k, t);
    assert(views_of(v@) =~= old_views.insert(k as int, tv));
    proof {
        let nv = views_of(v@);
        assert forall|i: int, j: int| 0 <= i < j < nv.len() implies lex_lt(
            #[trigger] nv[i],
            #[trigger] nv[j],
        ) by {
            if j < k {
            } else if i < k && j == k {
            } else if i < k {
                assert(lex_lt(old_views[i], tv));
                assert(lex_lt(tv, old_views[k as int]));
                lemma_lex_le_transitive(old_views[i], tv, old_views[k as int]);
                if j - 1 > k {
                    assert(lex_lt(old_views[k as int], old_views[j - 1]));
                    lemma_lex_le_transitive(old_views[i], old_views[k as int], old_views[j - 1]);
                    if old_views[i] == old_views[j - 1] {
                        lemma_lex_le_antisymmetric(old_views[i], old_views[k as int]);
                    }
                }
            } else if i == k {
                assert(lex_lt(tv, old_views[k as int]));
                if j - 1 > k {
                    assert(lex_lt(old_views[k as int], old_views[j - 1]));
                    lemma_lex_le_transitive(tv, old_views[k as int], old_views[j - 1]);
                    if tv == old_views[j - 1] {
                        lemma_lex_le_antisymmetric(tv, old_views[k as int]);
                    }
                }
            } else {
            }
        }
        assert forall|x: Seq<char>| nv.contains(x) <==> (old_views.contains(x) || x == tv) by {
            if nv.contains(x) {
                let i = choose|i: int| 0 <= i < nv.len() && nv[i] == x;
                if i < k {
                    assert(old_views[i] == x);
                } else if i > k {
                    assert(old_views[i - 1] == x);
                }
            }
            if old_views.contains(x) {
                let i = choose|i: int| 0 <= i < old_views.len() && old_views[i] == x;
                if i < k {
                    assert(nv[i] == x);
                } else {
                    assert(nv[i + 1] == x);
                }
            }
            if x == tv {
                assert(nv[k as int] == x);
            }
        }
    }
}

} // verus!
