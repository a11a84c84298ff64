//! The order of texts, and lists put in the order of their keys.
use crate::text;
use crate::text::to_chars;
use vstd::prelude::*;

verus! {

/// Whether `a` comes before `b` or is the same: texts are ordered by their first
/// difference, by the code points there.
pub open spec fn text_le(a: Seq<char>, b: Seq<char>) -> bool
    decreases a.len(),
{
    if a.len() == 0 {
        true
    } else if b.len() == 0 {
        false
    } else if a[0] == b[0] {
        text_le(a.drop_first(), b.drop_first())
    } else {
        a[0] < b[0]
    }
}

pub proof fn lemma_text_le_total(a: Seq<char>, b: Seq<char>)
    ensures
        text_le(a, b) || text_le(b, a),
    decreases a.len(),
{
    if a.len() > 0 && b.len() > 0 && a[0] == b[0] {
        lemma_text_le_total(a.drop_first(), b.drop_first());
    }
}

pub proof fn lemma_text_le_antisymmetric(a: Seq<char>, b: Seq<char>)
    requires
        text_le(a, b),
        text_le(b, a),
    ensures
        a == b,
    decreases a.len(),
{
    if a.len() == 0 || b.len() == 0 {
        assert(a =~= b);
    } else {
        lemma_text_le_antisymmetric(a.drop_first(), b.drop_first());
        assert(a =~= seq![a[0]] + a.drop_first());
        assert(b =~= seq![b[0]] + b.drop_first());
    }
}

pub proof fn lemma_text_le_transitive(a: Seq<char>, b: Seq<char>, c: Seq<char>)
    requires
        text_le(a, b),
        text_le(b, c),
    ensures
        text_le(a, c),
    decreases a.len(),
{
    if a.len() > 0 && a[0] == b[0] && b[0] == c[0] {
        lemma_text_le_transitive(a.drop_first(), b.drop_first(), c.drop_first());
    }
}

/// Whether `a` comes before `b` or is the same.
pub fn not_after(a: &str, b: &str) -> (r: bool)
    ensures
        r == text_le(a@, b@),
{
    let x = to_chars(a);
    let y = to_chars(b);
    let mut i: usize = 0;
    assert(x@.skip(0) =~= x@);
    assert(y@.skip(0) =~= y@);
    while i < x.len() && i < y.len() && x[i] == y[i]
        invariant
            i <= x@.len(),
            i <= y@.len(),
            text_le(a@, b@) == text_le(x@.skip(i as int), y@.skip(i as int)),
        decreases x@.len() - i,
    {
        assert(x@.skip(i as int).drop_first() =~= x@.skip(i + 1));
        assert(y@.skip(i as int).drop_first() =~= y@.skip(i + 1));
        i = i + 1;
    }
    if i == x.len() {
        true
    } else if i == y.len() {
        false
    } else {
        x[i] < y[i]
    }
}

/// Something with a text by which it is ordered.
pub trait Keyed: View + Sized {
    spec fn key(v: Self::V) -> Seq<char>;

    fn key_text(&self) -> (r: &str)
        ensures
            r@ == Self::key(self@),
    ;
}

/// The elements of a list with a given key, in their order.
pub open spec fn with_key<T: Keyed>(s: Seq<T::V>, k: Seq<char>) -> Seq<T::V> {
    s.filter(|v: T::V| T::key(v) == k)
}

/// Whether the keys of a list never go down.
pub open spec fn in_order<T: Keyed>(s: Seq<T::V>) -> bool {
    forall|i: int, j: int|
        0 <= i <= j < s.len() ==> text_le(T::key(#[trigger] s[i]), T::key(#[trigger] s[j]))
}

/// Whether `r` is the list `s` in the order of its keys. Elements with the same key
/// stay in the order they had.
pub open spec fn sorted_from<T: Keyed>(s: Seq<T::V>, r: Seq<T::V>) -> bool {
    &&& in_order::<T>(r)
    &&& forall|k: Seq<char>| #[trigger] with_key::<T>(r, k) == with_key::<T>(s, k)
}

pub proof fn lemma_with_key_append<T: Keyed>(a: Seq<T::V>, b: Seq<T::V>, k: Seq<char>)
    ensures
        with_key::<T>(a + b, k) == with_key::<T>(a, k) + with_key::<T>(b, k),
{
    Seq::filter_distributes_over_add(a, b, |v: T::V| T::key(v) == k);
}

pub proof fn lemma_with_key_one<T: Keyed>(x: T::V, k: Seq<char>)
    ensures
        with_key::<T>(seq![x], k) == (if T::key(x) == k {
            seq![x]
        } else {
            Seq::empty()
        }),
{
    reveal_with_fuel(Seq::filter, 2);
    assert(seq![x].drop_last() =~= Seq::empty());
    assert(with_key::<T>(seq![x], k) =~= (if T::key(x) == k {
        seq![x]
    } else {
        Seq::empty()
    }));
}

pub proof fn lemma_with_key_none<T: Keyed>(s: Seq<T::V>, k: Seq<char>)
    requires
        forall|i: int| 0 <= i < s.len() ==> T::key(#[trigger] s[i]) != k,
    ensures
        with_key::<T>(s, k) == Seq::<T::V>::empty(),
    decreases s.len(),
{
    reveal(Seq::filter);
    if s.len() > 0 {
        lemma_with_key_none::<T>(s.drop_last(), k);
        assert(s.last() == s[s.len() - 1]);
    }
    assert(with_key::<T>(s, k) =~= Seq::<T::V>::empty());
}

/// Putting `x` into a list in order, after all that does not come after it, gives
/// the list with `x` added, in order.
proof fn lemma_insert<T: Keyed>(done: Seq<T::V>, r: Seq<T::V>, x: T::V, pos: int)
    requires
        sorted_from::<T>(done, r),
        0 <= pos <= r.len(),
        forall|j: int| 0 <= j < pos ==> text_le(T::key(#[trigger] r[j]), T::key(x)),
        pos < r.len() ==> !text_le(T::key(r[pos]), T::key(x)),
    ensures
        sorted_from::<T>(done.push(x), r.insert(pos, x)),
{
    let made = r.insert(pos, x);
    let low = r.take(pos);
    let high = r.skip(pos);
    assert(made =~= low + seq![x] + high);
    assert(r =~= low + high);
    assert forall|j: int| pos <= j < r.len() implies text_le(T::key(x), T::key(#[trigger] r[j]))
        && T::key(r[j]) != T::key(x) by {
        lemma_text_le_total(T::key(r[pos]), T::key(x));
        assert(text_le(T::key(r[pos]), T::key(r[j])));
        lemma_text_le_transitive(T::key(x), T::key(r[pos]), T::key(r[j]));
    }
    assert forall|i: int, j: int| 0 <= i <= j < made.len() implies text_le(
        T::key(#[trigger] made[i]),
        T::key(#[trigger] made[j]),
    ) by {
        lemma_text_le_total(T::key(x), T::key(x));
        if i < pos {
            assert(made[i] == r[i]);
            if j < pos {
                assert(made[j] == r[j]);
            } else if j > pos {
                assert(made[j] == r[j - 1]);
            }
        } else if i == pos {
            if j > pos {
                assert(made[j] == r[j - 1]);
            }
        } else {
            assert(made[i] == r[i - 1]);
            assert(made[j] == r[j - 1]);
        }
    }
    assert forall|k: Seq<char>| #[trigger]
        with_key::<T>(made, k) == with_key::<T>(done.push(x), k) by {
        lemma_with_key_append::<T>(low + seq![x], high, k);
        lemma_with_key_append::<T>(low, seq![x], k);
        lemma_with_key_append::<T>(low, high, k);
        assert(done.push(x) =~= done + seq![x]);
        lemma_with_key_append::<T>(done, seq![x], k);
        lemma_with_key_one::<T>(x, k);
        assert(with_key::<T>(r, k) == with_key::<T>(done, k));
        if k == T::key(x) {
            assert forall|i: int| 0 <= i < high.len() implies T::key(#[trigger] high[i]) != k by {
                assert(high[i] == r[pos + i]);
            }
            lemma_with_key_none::<T>(high, k);
        }
        assert(with_key::<T>(made, k) =~= with_key::<T>(done.push(x), k));
    }
}

/// A list in the order of its keys.
pub fn sort_by_key<T: Keyed>(items: Vec<T>) -> (r: Vec<T>)
    ensures
        sorted_from::<T>(text::views(items@), text::views(r@)),
{
    let mut rest = items;
    let mut r: Vec<T> = Vec::new();
    let ghost all = text::views(items@);
    let ghost mut n: int = 0;
    assert(all.take(0) =~= Seq::empty());
    assert(text::views(r@) =~= Seq::empty());
    assert(all.skip(0) =~= all);
    while rest.len() > 0
        invariant
            0 <= n <= all.len(),
            text::views(rest@) == all.skip(n),
            sorted_from::<T>(all.take(n), text::views(r@)),
        decreases rest@.len(),
    {
        let ghost before = rest@;
        let x = rest.remove(0);
        proof {
            assert(text::views(before).len() == before.len());
            assert(x@ == all.skip(n)[0]);
            assert(text::views(rest@) =~= text::views(before).drop_first());
            assert(text::views(before).drop_first() =~= all.skip(n + 1));
        }
        let mut pos: usize = 0;
        while pos < r.len() && not_after(r[pos].key_text(), x.key_text())
            invariant
                pos <= r@.len(),
                forall|j: int|
                    0 <= j < pos ==> text_le(T::key(#[trigger] text::views(r@)[j]), T::key(x@)),
            decreases r@.len() - pos,
        {
            pos = pos + 1;
        }
        let ghost sorted = r@;
        let ghost v = x@;
        proof {
            lemma_insert::<T>(all.take(n), text::views(r@), v, pos as int);
            assert(all.take(n).push(v) =~= all.take(n + 1));
            n = n + 1;
        }
        r.insert(pos, x);
        assert(text::views(r@) =~= text::views(sorted).insert(pos as int, v));
    }
    assert(all.take(n) =~= all);
    r
}

/// An element of a list has its place among those with its key.
pub proof fn lemma_with_key_some<T: Keyed>(s: Seq<T::V>, i: int)
    requires
        0 <= i < s.len(),
    ensures
        with_key::<T>(s, T::key(s[i])).len() > 0,
{
    let k = T::key(s[i]);
    assert(s =~= s.take(i) + seq![s[i]] + s.skip(i + 1));
    lemma_with_key_append::<T>(s.take(i) + seq![s[i]], s.skip(i + 1), k);
    lemma_with_key_append::<T>(s.take(i), seq![s[i]], k);
    lemma_with_key_one::<T>(s[i], k);
}

/// Where two lists in order hold the same elements, neither begins later than the other.
proof fn lemma_first_keys<T: Keyed>(a: Seq<T::V>, b: Seq<T::V>)
    requires
        in_order::<T>(a),
        in_order::<T>(b),
        a.len() > 0,
        forall|k: Seq<char>| #[trigger] with_key::<T>(a, k) == with_key::<T>(b, k),
    ensures
        b.len() > 0,
        text_le(T::key(b[0]), T::key(a[0])),
{
    let k = T::key(a[0]);
    lemma_with_key_some::<T>(a, 0);
    assert(with_key::<T>(a, k) == with_key::<T>(b, k));
    if forall|i: int| 0 <= i < b.len() ==> T::key(#[trigger] b[i]) != k {
        lemma_with_key_none::<T>(b, k);
    }
    let i = choose|i: int| 0 <= i < b.len() && T::key(#[trigger] b[i]) == k;
    assert(text_le(T::key(b[0]), T::key(b[i])));
}

/// Putting a list in order neither adds nor loses elements.
pub proof fn law_order_keeps_elements<T: Keyed>(s: Seq<T::V>, r: Seq<T::V>, v: T::V)
    requires
        sorted_from::<T>(s, r),
    ensures
        s.contains(v) <==> r.contains(v),
{
    let k = T::key(v);
    assert(with_key::<T>(r, k) == with_key::<T>(s, k));
    lemma_with_key_contains::<T>(s, v, k);
    lemma_with_key_contains::<T>(r, v, k);
}

proof fn lemma_with_key_contains<T: Keyed>(s: Seq<T::V>, e: T::V, k: Seq<char>)
    ensures
        with_key::<T>(s, k).contains(e) <==> s.contains(e) && T::key(e) == k,
    decreases s.len(),
{
    reveal(Seq::filter);
    if s.len() > 0 {
        let t = s.drop_last();
        let low = with_key::<T>(t, k);
        let all = with_key::<T>(s, k);
        lemma_with_key_contains::<T>(t, e, k);
        assert(s =~= t.push(s.last()));
        if T::key(s.last()) == k {
            assert(all == low.push(s.last()));
        } else {
            assert(all == low);
        }
        if low.contains(e) {
            assert(all[low.index_of(e)] == e);
        }
        if t.contains(e) {
            assert(s[t.index_of(e)] == e);
        }
        if s.last() == e && T::key(e) == k {
            assert(all[all.len() - 1] == e);
        }
        if all.contains(e) && all.index_of(e) < low.len() {
            assert(low[all.index_of(e)] == e);
        }
        if s.contains(e) && s.index_of(e) < t.len() {
            assert(t[s.index_of(e)] == e);
        }
    }
}

/// There is one way to put a list in the order of its keys.
pub proof fn law_order_is_unique<T: Keyed>(s: Seq<T::V>, a: Seq<T::V>, b: Seq<T::V>)
    requires
        sorted_from::<T>(s, a),
        sorted_from::<T>(s, b),
    ensures
        a == b,
    decreases a.len(),
{
    assert forall|k: Seq<char>| #[trigger] with_key::<T>(a, k) == with_key::<T>(b, k) by {
        assert(with_key::<T>(b, k) == with_key::<T>(s, k));
    }
    assert forall|k: Seq<char>| #[trigger] with_key::<T>(b, k) == with_key::<T>(a, k) by {
        assert(with_key::<T>(a, k) == with_key::<T>(s, k));
    }
    if a.len() == 0 {
        if b.len() > 0 {
            lemma_first_keys::<T>(b, a);
        }
        assert(a =~= b);
    } else {
        lemma_first_keys::<T>(a, b);
        lemma_first_keys::<T>(b, a);
        lemma_text_le_antisymmetric(T::key(a[0]), T::key(b[0]));
        let k = T::key(a[0]);
        let x = a.drop_first();
        let y = b.drop_first();
        assert(a =~= seq![a[0]] + x);
        assert(b =~= seq![b[0]] + y);
        lemma_with_key_append::<T>(seq![a[0]], x, k);
        lemma_with_key_append::<T>(seq![b[0]], y, k);
        lemma_with_key_one::<T>(a[0], k);
        lemma_with_key_one::<T>(b[0], k);
        assert(with_key::<T>(a, k) == with_key::<T>(b, k));
        assert(with_key::<T>(a, k)[0] == a[0]);
        assert(with_key::<T>(b, k)[0] == b[0]);
        assert forall|m: Seq<char>| #[trigger] with_key::<T>(y, m) == with_key::<T>(x, m) by {
            lemma_with_key_append::<T>(seq![a[0]], x, m);
            lemma_with_key_append::<T>(seq![b[0]], y, m);
            lemma_with_key_one::<T>(a[0], m);
            let head = with_key::<T>(seq![a[0]], m);
            assert(with_key::<T>(a, m) == with_key::<T>(b, m));
            assert(with_key::<T>(x, m) =~= with_key::<T>(a, m).skip(head.len() as int));
            assert(with_key::<T>(y, m) =~= with_key::<T>(b, m).skip(head.len() as int));
        }
        law_order_is_unique::<T>(x, x, y);
    }
}

/// Texts are ordered like words in a dictionary: a start of a text does not come after it,
/// and else the first character in which two differ decides, by its code point.
pub proof fn law_text_order(a: Seq<char>, b: Seq<char>)
    ensures
        text_le(a, b) <==> {
            ||| a.is_prefix_of(b)
            ||| exists|i: int|
                {
                    &&& 0 <= i < a.len()
                    &&& i < b.len()
                    &&& a.take(i) == b.take(i)
                    &&& #[trigger] a[i] < b[i]
                }
        },
    decreases a.len(),
{
    if a.len() == 0 {
        assert(a.is_prefix_of(b));
    } else if b.len() == 0 {
    } else if a[0] == b[0] {
        let x = a.drop_first();
        let y = b.drop_first();
        law_text_order(x, y);
        if a.is_prefix_of(b) {
            assert(x =~= y.subrange(0, x.len() as int));
        }
        if x.is_prefix_of(y) {
            assert forall|i: int| 0 <= i < a.len() implies a[i] == b[i] by {
                if i > 0 {
                    assert(x[i - 1] == y.subrange(0, x.len() as int)[i - 1]);
                }
            }
            assert(a =~= b.subrange(0, a.len() as int));
        }
        assert forall|i: int|
            0 <= i < x.len() && i < y.len() && x.take(i) == y.take(i) && #[trigger] x[i] < y[i] implies exists|j: int|
            0 <= j < a.len() && j < b.len() && a.take(j) == b.take(j) && #[trigger] a[j] < b[j] by {
            assert(a[i + 1] == x[i] && b[i + 1] == y[i]);
            assert(a.take(i + 1) =~= seq![a[0]] + x.take(i));
            assert(b.take(i + 1) =~= seq![b[0]] + y.take(i));
            assert(a[i + 1] < b[i + 1]);
        }
        assert forall|i: int|
            0 <= i < a.len() && i < b.len() && a.take(i) == b.take(i) && #[trigger] a[i] < b[i] implies exists|j: int|
            0 <= j < x.len() && j < y.len() && x.take(j) == y.take(j) && #[trigger] x[j] < y[j] by {
            assert(i > 0);
            assert(x[i - 1] == a[i] && y[i - 1] == b[i]);
            assert(x.take(i - 1) =~= a.take(i).drop_first());
            assert(y.take(i - 1) =~= b.take(i).drop_first());
            assert(x[i - 1] < y[i - 1]);
        }
    } else {
        if a.is_prefix_of(b) {
            assert(a[0] == b.subrange(0, a.len() as int)[0]);
        }
        assert(a.take(0) =~= b.take(0));
        assert forall|i: int|
            0 <= i < a.len() && i < b.len() && a.take(i) == b.take(i) && #[trigger] a[i] < b[i] implies i == 0 by {
            if i > 0 {
                assert(a.take(i)[0] == b.take(i)[0]);
            }
        }
    }
}

/// How often an element stands in a list.
pub open spec fn times<V>(s: Seq<V>, v: V) -> nat
    decreases s.len(),
{
    if s.len() == 0 {
        0
    } else {
        times(s.drop_last(), v) + (if s.last() == v {
            1nat
        } else {
            0
        })
    }
}

proof fn lemma_times_with_key<T: Keyed>(s: Seq<T::V>, v: T::V)
    ensures
        times(s, v) == times(with_key::<T>(s, T::key(v)), v),
    decreases s.len(),
{
    reveal(Seq::filter);
    let k = T::key(v);
    let all = with_key::<T>(s, k);
    if s.len() > 0 {
        let t = s.drop_last();
        let low = with_key::<T>(t, k);
        lemma_times_with_key::<T>(t, v);
        if T::key(s.last()) == k {
            assert(all == low.push(s.last()));
            assert(all.drop_last() =~= low);
        } else {
            assert(all == low);
        }
    }
}

/// The elements of a list with a key, one by one.
pub open spec fn those_with_key<T: Keyed>(s: Seq<T::V>, k: Seq<char>) -> Seq<T::V>
    decreases s.len(),
{
    if s.len() == 0 {
        Seq::empty()
    } else if T::key(s.last()) == k {
        those_with_key::<T>(s.drop_last(), k).push(s.last())
    } else {
        those_with_key::<T>(s.drop_last(), k)
    }
}

proof fn lemma_those_with_key<T: Keyed>(s: Seq<T::V>, k: Seq<char>)
    ensures
        those_with_key::<T>(s, k) == with_key::<T>(s, k),
    decreases s.len(),
{
    reveal(Seq::filter);
    if s.len() > 0 {
        lemma_those_with_key::<T>(s.drop_last(), k);
    }
}

/// A list that was put in order holds each element as often as before, its keys never go
/// down, and elements with one key stay in the order they had.
pub proof fn law_order_sorts<T: Keyed>(s: Seq<T::V>, r: Seq<T::V>, v: T::V, k: Seq<char>)
    requires
        sorted_from::<T>(s, r),
    ensures
        times(r, v) == times(s, v),
        forall|i: int, j: int|
            0 <= i < j < r.len() ==> text_le(T::key(#[trigger] r[i]), T::key(#[trigger] r[j])),
        those_with_key::<T>(r, k) == those_with_key::<T>(s, k),
{
    assert(with_key::<T>(r, T::key(v)) == with_key::<T>(s, T::key(v)));
    lemma_times_with_key::<T>(r, v);
    lemma_times_with_key::<T>(s, v);
    assert(with_key::<T>(r, k) == with_key::<T>(s, k));
    lemma_those_with_key::<T>(r, k);
    lemma_those_with_key::<T>(s, k);
}

} // verus!
