//! A stable order by text keys, so that the same input is always listed and
//! numbered the same way.
use vstd::prelude::*;

use crate::text;

verus! {

/// Does `a` come before `b`, code point by code point?
pub open spec fn less(a: Seq<char>, b: Seq<char>) -> bool
    decreases a.len(),
{
    if b.len() == 0 {
        false
    } else if a.len() == 0 {
        true
    } else if a[0] as u32 != b[0] as u32 {
        (a[0] as u32) < (b[0] as u32)
    } else {
        less(a.skip(1), b.skip(1))
    }
}

/// Does key `a` come before key `b`?
pub open spec fn ahead(a: Seq<char>, b: Seq<char>, descending: bool) -> bool {
    if descending {
        less(b, a)
    } else {
        less(a, b)
    }
}

/// How many items at the front come before the key.
pub open spec fn place<T>(items: Seq<(Seq<char>, T)>, key: Seq<char>, descending: bool) -> int
    decreases items.len(),
{
    if items.len() > 0 && ahead(items[0].0, key, descending) {
        1 + place(items.skip(1), key, descending)
    } else {
        0
    }
}

/// The items in the order of their keys; items with the same key keep theirs.
pub open spec fn sorted<T>(items: Seq<(Seq<char>, T)>, descending: bool) -> Seq<(Seq<char>, T)>
    decreases items.len(),
{
    if items.len() == 0 {
        seq![]
    } else {
        let rest = sorted(items.skip(1), descending);
        rest.insert(place(rest, items[0].0, descending), items[0])
    }
}

/// Does `a` come before `b`, code point by code point?
pub fn is_less(a: &str, b: &str) -> (r: bool)
    ensures
        r == less(a@, b@),
{
    let x = text::chars_of(a);
    let y = text::chars_of(b);
    let mut i: usize = 0;
    proof {
        assert(a@.skip(0) =~= a@);
        assert(b@.skip(0) =~= b@);
    }
    while i < x.len() && i < y.len()
        invariant
            i <= x@.len(),
            i <= y@.len(),
            x@ == a@,
            y@ == b@,
            less(a@, b@) == less(a@.skip(i as int), b@.skip(i as int)),
        decreases x@.len() - i,
    {
        let c: u32 = x[i] as u32;
        let d: u32 = y[i] as u32;
        proof {
            assert(a@.skip(i as int)[0] == a@[i as int]);
            assert(b@.skip(i as int)[0] == b@[i as int]);
            assert(a@.skip(i as int).skip(1) =~= a@.skip(i as int + 1));
            assert(b@.skip(i as int).skip(1) =~= b@.skip(i as int + 1));
        }
        if c != d {
            return c < d;
        }
        i = i + 1;
    }
    i < y.len()
}

/// A place among the items, between the first and past the last.
pub proof fn lemma_place<T>(items: Seq<(Seq<char>, T)>, key: Seq<char>, descending: bool)
    ensures
        0 <= place(items, key, descending) <= items.len(),
        forall|k: int|
            0 <= k < place(items, key, descending) ==> ahead(
                (#[trigger] items[k]).0,
                key,
                descending,
            ),
        place(items, key, descending) < items.len() ==> !ahead(
            items[place(items, key, descending)].0,
            key,
            descending,
        ),
    decreases items.len(),
{
    if items.len() > 0 && ahead(items[0].0, key, descending) {
        let rest = items.skip(1);
        lemma_place(rest, key, descending);
        assert forall|k: int| 0 <= k < place(items, key, descending) implies ahead(
            (#[trigger] items[k]).0,
            key,
            descending,
        ) by {
            if k > 0 {
                assert(rest[k - 1] == items[k]);
            }
        }
    }
}

/// The place is where the items stop coming before the key.
proof fn lemma_place_is<T>(
    items: Seq<(Seq<char>, T)>,
    key: Seq<char>,
    descending: bool,
    p: int,
)
    requires
        0 <= p <= items.len(),
        forall|k: int| 0 <= k < p ==> ahead((#[trigger] items[k]).0, key, descending),
        p < items.len() ==> !ahead(items[p].0, key, descending),
    ensures
        place(items, key, descending) == p,
    decreases items.len(),
{
    if p > 0 {
        let rest = items.skip(1);
        assert(ahead(items[0].0, key, descending));
        assert forall|k: int| 0 <= k < p - 1 implies ahead(
            (#[trigger] rest[k]).0,
            key,
            descending,
        ) by {
            assert(rest[k] == items[k + 1]);
        }
        lemma_place_is(rest, key, descending, p - 1);
    }
}

/// Items with the keys that they are ordered by.
pub open spec fn keyed<T>(items: Seq<(String, T)>) -> Seq<(Seq<char>, T)> {
    Seq::new(items.len(), |i: int| (items[i].0@, items[i].1))
}

/// How many items at the front come before the key.
pub fn find_place<T>(items: &Vec<(String, T)>, key: &str, descending: bool) -> (p: usize)
    ensures
        p == place(keyed(items@), key@, descending),
        p <= items@.len(),
{
    let ghost v = keyed(items@);
    let mut p: usize = 0;
    while p < items.len()
        invariant
            p <= items@.len(),
            v == keyed(items@),
            forall|k: int| 0 <= k < p ==> ahead((#[trigger] v[k]).0, key@, descending),
        decreases items@.len() - p,
    {
        let before = if descending {
            is_less(key, items[p].0.as_str())
        } else {
            is_less(items[p].0.as_str(), key)
        };
        if !before {
            proof {
                lemma_place_is(v, key@, descending, p as int);
            }
            return p;
        }
        p = p + 1;
    }
    proof {
        lemma_place_is(v, key@, descending, p as int);
    }
    p
}

/// Puts items in the order of their keys; items with the same key keep theirs.
pub fn sort<T>(items: Vec<(String, T)>, descending: bool) -> (r: Vec<(String, T)>)
    ensures
        keyed(r@) == sorted(keyed(items@), descending),
{
    let ghost v = keyed(items@);
    let mut left = items;
    let mut out: Vec<(String, T)> = Vec::new();
    proof {
        assert(v.skip(left@.len() as int) =~= seq![]);
        assert(keyed(out@) =~= seq![]);
    }
    while left.len() > 0
        invariant
            left@.len() <= v.len(),
            keyed(left@) == v.take(left@.len() as int),
            keyed(out@) == sorted(v.skip(left@.len() as int), descending),
        decreases left@.len(),
    {
        let ghost was = left@;
        let ghost n = (left@.len() - 1) as int;
        if let Some(item) = left.pop() {
            let p = find_place(&out, item.0.as_str(), descending);
            let ghost before = out@;
            let ghost pair = (item.0@, item.1);
            proof {
                assert(keyed(was)[n] == v.take(n + 1)[n]);
                assert(pair == v[n]);
                assert(v.skip(n)[0] == v[n]);
                assert(v.skip(n).skip(1) =~= v.skip(n + 1));
                assert(keyed(left@) =~= v.take(n));
            }
            out.insert(p, item);
            assert(keyed(out@) =~= keyed(before).insert(p as int, pair));
        }
    }
    assert(v.skip(0) =~= v);
    out
}

/// The items with something else in their place, under the same keys.
pub open spec fn exchanged<T, U>(items: Seq<(Seq<char>, T)>, f: spec_fn(T) -> U) -> Seq<
    (Seq<char>, U),
> {
    Seq::new(items.len(), |i: int| (items[i].0, f(items[i].1)))
}

/// A place goes by keys alone.
pub proof fn lemma_place_by_key<T, U>(
    items: Seq<(Seq<char>, T)>,
    f: spec_fn(T) -> U,
    key: Seq<char>,
    descending: bool,
)
    ensures
        place(exchanged(items, f), key, descending) == place(items, key, descending),
{
    lemma_place(items, key, descending);
    let p = place(items, key, descending);
    let other = exchanged(items, f);
    assert forall|k: int| 0 <= k < p implies ahead((#[trigger] other[k]).0, key, descending) by {
        assert(other[k].0 == items[k].0);
    }
    lemma_place_is(other, key, descending, p);
}

// ----------------------------------------------------------------------- laws
/// Sorting looks at keys alone.
pub proof fn law_sorting_goes_by_key<T, U>(
    items: Seq<(Seq<char>, T)>,
    f: spec_fn(T) -> U,
    descending: bool,
)
    ensures
        sorted(exchanged(items, f), descending) == exchanged(sorted(items, descending), f),
    decreases items.len(),
{
    let other = exchanged(items, f);
    if items.len() == 0 {
        assert(exchanged(sorted(items, descending), f) =~= seq![]);
    } else {
        law_sorting_goes_by_key(items.skip(1), f, descending);
        assert(other.skip(1) =~= exchanged(items.skip(1), f));
        let rest = sorted(items.skip(1), descending);
        lemma_place_by_key(rest, f, items[0].0, descending);
        lemma_place(rest, items[0].0, descending);
        let p = place(rest, items[0].0, descending);
        assert(exchanged(rest, f).insert(p, other[0]) =~= exchanged(rest.insert(p, items[0]), f));
    }
}

/// Every item that comes out of sorting went in.
pub proof fn law_sorted_items_went_in<T>(items: Seq<(Seq<char>, T)>, descending: bool, i: int)
    requires
        0 <= i < sorted(items, descending).len(),
    ensures
        items.contains(sorted(items, descending)[i]),
{
    law_sorting_keeps_the_items(items, descending);
    let out = sorted(items, descending);
    out.to_multiset_ensures();
    items.to_multiset_ensures();
    assert(out.contains(out[i]));
    assert(out.to_multiset().count(out[i]) > 0);
    assert(items.to_multiset().count(out[i]) > 0);
}

/// The order of texts is an order: nothing comes before itself, of two
/// different texts one comes first, and what comes first does so throughout.
pub proof fn law_texts_are_ordered(a: Seq<char>, b: Seq<char>, c: Seq<char>)
    ensures
        !less(a, a),
        less(a, b) ==> !less(b, a),
        !less(a, b) && !less(b, a) ==> a == b,
        less(a, b) && less(b, c) ==> less(a, c),
        less(a, b) ==> less(a, c) || less(c, b),
    decreases a.len() + b.len() + c.len(),
{
    if a.len() > 0 && b.len() > 0 && c.len() > 0 {
        law_texts_are_ordered(a.skip(1), b.skip(1), c.skip(1));
    } else if a.len() > 0 && b.len() > 0 {
        law_texts_are_ordered(a.skip(1), b.skip(1), c);
    } else if a.len() > 0 {
        law_texts_are_ordered(a.skip(1), b, c);
    }
    if a.len() > 0 && b.len() > 0 && !less(a, b) && !less(b, a) {
        vstd::utf8::char_u32_cast(a[0], a[0] as u32);
        vstd::utf8::char_u32_cast(b[0], b[0] as u32);
        assert(a[0] == b[0]);
        assert(a =~= seq![a[0]] + a.skip(1));
        assert(b =~= seq![b[0]] + b.skip(1));
    }
    if a.len() == 0 && b.len() == 0 {
        assert(a =~= b);
    }
}

/// Sorting leaves no two items out of order.
pub proof fn law_sorting_orders<T>(items: Seq<(Seq<char>, T)>, descending: bool)
    ensures
        sorted(items, descending).len() == items.len(),
        forall|i: int, j: int|
            0 <= i < j < items.len() ==> !ahead(
                (#[trigger] sorted(items, descending)[j]).0,
                (#[trigger] sorted(items, descending)[i]).0,
                descending,
            ),
    decreases items.len(),
{
    if items.len() > 0 {
        let rest = sorted(items.skip(1), descending);
        law_sorting_orders(items.skip(1), descending);
        let key = items[0].0;
        let p = place(rest, key, descending);
        lemma_place(rest, key, descending);
        let all = rest.insert(p, items[0]);
        assert forall|i: int, j: int| 0 <= i < j < all.len() implies !ahead(
            (#[trigger] all[j]).0,
            (#[trigger] all[i]).0,
            descending,
        ) by {
            let a = all[i].0;
            let b = all[j].0;
            if i < p && j < p {
                assert(all[i] == rest[i] && all[j] == rest[j]);
            } else if i < p && j == p {
                assert(all[i] == rest[i]);
                assert(ahead(rest[i].0, key, descending));
                law_texts_are_ordered(a, b, b);
                law_texts_are_ordered(b, a, a);
            } else if i < p {
                assert(all[i] == rest[i] && all[j] == rest[j - 1]);
            } else if i == p {
                assert(all[j] == rest[j - 1]);
                let f = rest[p].0;
                assert(!ahead(f, key, descending));
                if j - 1 > p {
                    assert(!ahead(rest[j - 1].0, rest[p].0, descending));
                }
                law_texts_are_ordered(b, key, f);
                law_texts_are_ordered(key, b, f);
                law_texts_are_ordered(b, b, b);
            } else {
                assert(all[i] == rest[i - 1] && all[j] == rest[j - 1]);
            }
        }
    }
}

/// Sorting neither loses an item nor makes one up.
pub proof fn law_sorting_keeps_the_items<T>(items: Seq<(Seq<char>, T)>, descending: bool)
    ensures
        sorted(items, descending).to_multiset() == items.to_multiset(),
    decreases items.len(),
{
    broadcast use vstd::seq_lib::group_to_multiset_ensures;

    if items.len() == 0 {
        assert(items =~= seq![]);
    } else {
        let rest = sorted(items.skip(1), descending);
        law_sorting_keeps_the_items(items.skip(1), descending);
        lemma_place(rest, items[0].0, descending);
        let p = place(rest, items[0].0, descending);
        let all = rest.insert(p, items[0]);
        assert(all.remove(p) =~= rest);
        assert(items.remove(0) =~= items.skip(1));
        assert(all[p] == items[0]);
        assert(all.to_multiset().remove(items[0]) =~= rest.to_multiset());
        assert(items.to_multiset().remove(items[0]) =~= rest.to_multiset());
        assert(all.contains(items[0]));
        assert(items.contains(items[0]));
        assert(all.to_multiset() =~= rest.to_multiset().insert(items[0]));
        assert(items.to_multiset() =~= rest.to_multiset().insert(items[0]));
    }
}

/// Items with the same key stay in the order they came in.
pub proof fn law_sorting_is_stable<T>(
    items: Seq<(Seq<char>, T)>,
    descending: bool,
    key: Seq<char>,
)
    ensures
        sorted(items, descending).filter(|x: (Seq<char>, T)| x.0 == key) == items.filter(
            |x: (Seq<char>, T)| x.0 == key,
        ),
    decreases items.len(),
{
    let f = |x: (Seq<char>, T)| x.0 == key;
    if items.len() == 0 {
        assert(items =~= seq![]);
    } else {
        let rest = sorted(items.skip(1), descending);
        law_sorting_is_stable(items.skip(1), descending, key);
        let x = items[0];
        lemma_place(rest, x.0, descending);
        let p = place(rest, x.0, descending);
        let front = rest.take(p);
        let back = rest.skip(p);
        assert(rest =~= front + back);
        assert(rest.insert(p, x) =~= front + (seq![x] + back));
        assert(items =~= seq![x] + items.skip(1));
        Seq::filter_distributes_over_add(front, back, f);
        Seq::filter_distributes_over_add(front, seq![x] + back, f);
        Seq::filter_distributes_over_add(seq![x], back, f);
        Seq::filter_distributes_over_add(seq![x], items.skip(1), f);
        if x.0 == key {
            assert forall|k: int| 0 <= k < front.len() implies !f(#[trigger] front[k]) by {
                assert(front[k] == rest[k]);
                law_texts_are_ordered(key, key, key);
            }
            lemma_none_kept(front, f);
            assert(rest.filter(f) =~= back.filter(f));
            assert((front + (seq![x] + back)).filter(f) =~= seq![x].filter(f) + back.filter(f));
        } else {
            let one = seq![x];
            assert(!f(one[0]));
            lemma_none_kept(one, f);
            assert((one + back).filter(f) =~= back.filter(f));
            assert((one + items.skip(1)).filter(f) =~= items.skip(1).filter(f));
        }
    }
}

proof fn lemma_none_kept<A>(s: Seq<A>, f: spec_fn(A) -> bool)
    requires
        forall|k: int| 0 <= k < s.len() ==> !f(#[trigger] s[k]),
    ensures
        s.filter(f) == Seq::<A>::empty(),
    decreases s.len(),
{
    reveal(Seq::filter);
    if s.len() > 0 {
        assert forall|k: int| 0 <= k < s.drop_last().len() implies !f(
            #[trigger] s.drop_last()[k],
        ) by {
            assert(s.drop_last()[k] == s[k]);
        }
        lemma_none_kept(s.drop_last(), f);
        assert(!f(s[s.len() - 1]));
    }
}

/// Of two texts the one comes first that has the smaller character where they
/// first differ; where one is the beginning of the other, it comes first; and
/// where they are the same, neither does. The other way round is the order
/// turned.
pub proof fn law_texts_go_by_their_first_difference(a: Seq<char>, b: Seq<char>, i: int)
    requires
        0 <= i <= a.len(),
        i <= b.len(),
        forall|k: int| 0 <= k < i ==> #[trigger] a[k] == b[k],
        i == a.len() || i == b.len() || a[i] as u32 != b[i] as u32,
    ensures
        i == b.len() ==> !less(a, b),
        i == a.len() && i < b.len() ==> less(a, b),
        i < a.len() && i < b.len() ==> (less(a, b) <==> (a[i] as u32) < (b[i] as u32)),
        ahead(a, b, false) == less(a, b),
        ahead(a, b, true) == less(b, a),
    decreases i,
{
    if i > 0 {
        assert(a[0] == b[0]);
        let x = a.skip(1);
        let y = b.skip(1);
        assert forall|k: int| 0 <= k < i - 1 implies #[trigger] x[k] == y[k] by {
            assert(a[k + 1] == b[k + 1]);
        }
        law_texts_go_by_their_first_difference(x, y, i - 1);
    }
}

} // verus!
