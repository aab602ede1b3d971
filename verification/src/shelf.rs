//! Records under text keys, in the order of the keys, each key once.
use vstd::prelude::*;
use vstd::string::*;

use crate::order;
use crate::text;

verus! {

/// Records under text keys.
#[derive(Debug)]
pub struct Shelf<T> {
    pub items: Vec<(String, T)>,
}

impl<T> View for Shelf<T> {
    type V = Seq<(Seq<char>, T)>;

    open spec fn view(&self) -> Seq<(Seq<char>, T)> {
        order::keyed(self.items@)
    }
}

/// The keys are in order, and none is there twice.
pub open spec fn ordered<T>(s: Seq<(Seq<char>, T)>) -> bool {
    forall|i: int, j: int|
        0 <= i < j < s.len() ==> order::less((#[trigger] s[i]).0, (#[trigger] s[j]).0)
}

/// Is there a record under the key?
pub open spec fn holds<T>(s: Seq<(Seq<char>, T)>, key: Seq<char>) -> bool {
    let p = order::place(s, key, false);
    p < s.len() && s[p].0 == key
}

/// The record under the key.
pub open spec fn got<T>(s: Seq<(Seq<char>, T)>, key: Seq<char>) -> Option<T> {
    if holds(s, key) {
        Some(s[order::place(s, key, false)].1)
    } else {
        None
    }
}

/// The records, with one under the key put in or replaced.
pub open spec fn with<T>(s: Seq<(Seq<char>, T)>, key: Seq<char>, value: T) -> Seq<(Seq<char>, T)> {
    let p = order::place(s, key, false);
    if holds(s, key) {
        s.update(p, (key, value))
    } else {
        s.insert(p, (key, value))
    }
}

/// The records without the one under the key.
pub open spec fn without<T>(s: Seq<(Seq<char>, T)>, key: Seq<char>) -> Seq<(Seq<char>, T)> {
    if holds(s, key) {
        s.remove(order::place(s, key, false))
    } else {
        s
    }
}

impl<T> Shelf<T> {
    /// No records.
    pub fn new() -> (r: Shelf<T>)
        ensures
            r@ == Seq::<(Seq<char>, T)>::empty(),
            ordered(r@),
    {
        let r = Shelf { items: Vec::new() };
        assert(r@ =~= Seq::<(Seq<char>, T)>::empty());
        r
    }

    /// The record under the key.
    pub fn get(&self, key: &str) -> (r: Option<&T>)
        ensures
            match r {
                Some(v) => got(self@, key@) == Some(*v),
                None => got(self@, key@) is None,
            },
    {
        let p = order::find_place(&self.items, key, false);
        if p < self.items.len() && text::same(self.items[p].0.as_str(), key) {
            Some(&self.items[p].1)
        } else {
            None
        }
    }

    /// Puts a record in, or replaces the one that is there.
    pub fn put(&mut self, key: &str, value: T)
        ensures
            final(self)@ == with(old(self)@, key@, value),
    {
        let ghost was = self.items@;
        let p = order::find_place(&self.items, key, false);
        if p < self.items.len() && text::same(self.items[p].0.as_str(), key) {
            self.items.set(p, (key.to_owned(), value));
            assert(order::keyed(self.items@) =~= order::keyed(was).update(p as int, (key@, value)));
        } else {
            self.items.insert(p, (key.to_owned(), value));
            assert(order::keyed(self.items@) =~= order::keyed(was).insert(p as int, (key@, value)));
        }
    }

    /// Takes a record out; says whether there was one.
    pub fn take_out(&mut self, key: &str) -> (b: bool)
        ensures
            final(self)@ == without(old(self)@, key@),
            b == holds(old(self)@, key@),
    {
        let ghost was = self.items@;
        let p = order::find_place(&self.items, key, false);
        if p < self.items.len() && text::same(self.items[p].0.as_str(), key) {
            self.items.remove(p);
            assert(order::keyed(self.items@) =~= order::keyed(was).remove(p as int));
            true
        } else {
            false
        }
    }
}

// ----------------------------------------------------------------------- laws
/// Where a key stands among records in order.
proof fn lemma_stands<T>(s: Seq<(Seq<char>, T)>, key: Seq<char>)
    requires
        ordered(s),
    ensures
        0 <= order::place(s, key, false) <= s.len(),
        forall|k: int|
            0 <= k < order::place(s, key, false) ==> order::less((#[trigger] s[k]).0, key),
        forall|k: int|
            order::place(s, key, false) <= k < s.len() ==> (#[trigger] s[k]).0 == key
                || order::less(key, s[k].0),
        forall|k: int|
            order::place(s, key, false) < k < s.len() ==> order::less(key, (#[trigger] s[k]).0),
{
    order::lemma_place(s, key, false);
    let p = order::place(s, key, false);
    if p < s.len() {
        order::law_texts_are_ordered(s[p].0, key, key);
        order::law_texts_are_ordered(key, s[p].0, key);
        assert forall|k: int| p < k < s.len() implies order::less(key, (#[trigger] s[k]).0) by {
            assert(order::less(s[p].0, s[k].0));
            order::law_texts_are_ordered(key, s[p].0, s[k].0);
        }
    }
}

/// A key is held if and only if some record stands under it, and what is got is
/// that record.
pub proof fn law_what_is_held_is_got<T>(s: Seq<(Seq<char>, T)>, key: Seq<char>, i: int)
    requires
        ordered(s),
        0 <= i < s.len(),
        s[i].0 == key,
    ensures
        holds(s, key),
        got(s, key) == Some(s[i].1),
{
    lemma_stands(s, key);
    let p = order::place(s, key, false);
    order::law_texts_are_ordered(key, key, key);
    if i < p {
        assert(order::less(s[i].0, key));
    }
    if p < i {
        assert(order::less(key, s[i].0));
    }
}

/// A record whose key comes after all others is put at the end.
pub proof fn law_the_greatest_goes_last<T>(s: Seq<(Seq<char>, T)>, key: Seq<char>, value: T)
    requires
        ordered(s.push((key, value))),
    ensures
        !holds(s, key),
        with(s, key, value) == s.push((key, value)),
{
    let all = s.push((key, value));
    assert forall|i: int, j: int| 0 <= i < j < s.len() implies order::less(
        (#[trigger] s[i]).0,
        (#[trigger] s[j]).0,
    ) by {
        assert(order::less(all[i].0, all[j].0));
    }
    lemma_stands(s, key);
    let p = order::place(s, key, false);
    if p < s.len() {
        assert(order::less(all[p].0, all[s.len() as int].0));
        order::law_texts_are_ordered(key, s[p].0, key);
    }
    assert(with(s, key, value) =~= all);
}

/// Puts and takes keep the order and the keys single.
pub proof fn law_the_order_is_kept<T>(s: Seq<(Seq<char>, T)>, key: Seq<char>, value: T)
    requires
        ordered(s),
    ensures
        ordered(with(s, key, value)),
        ordered(without(s, key)),
{
    lemma_stands(s, key);
    let p = order::place(s, key, false);
    let w = with(s, key, value);
    assert forall|i: int, j: int| 0 <= i < j < w.len() implies order::less(
        (#[trigger] w[i]).0,
        (#[trigger] w[j]).0,
    ) by {
        if holds(s, key) {
            assert(w[i].0 == s[i].0 && w[j].0 == s[j].0);
            assert(order::less(s[i].0, s[j].0));
        } else {
            let a = if i < p {
                i
            } else {
                i - 1
            };
            let b = if j < p {
                j
            } else {
                j - 1
            };
            if i == p {
                assert(w[j] == s[b]);
            } else if j == p {
                assert(w[i] == s[i]);
            } else {
                assert(w[i] == s[a] && w[j] == s[b]);
                assert(order::less(s[a].0, s[b].0));
            }
        }
    }
    let o = without(s, key);
    assert forall|i: int, j: int| 0 <= i < j < o.len() implies order::less(
        (#[trigger] o[i]).0,
        (#[trigger] o[j]).0,
    ) by {
        if holds(s, key) {
            let a = if i < p {
                i
            } else {
                i + 1
            };
            let b = if j < p {
                j
            } else {
                j + 1
            };
            assert(o[i] == s[a] && o[j] == s[b]);
            assert(order::less(s[a].0, s[b].0));
        } else {
            assert(order::less(s[i].0, s[j].0));
        }
    }
}

/// What was put in is got back, and nothing under another key has changed.
pub proof fn law_a_put_is_got_back<T>(
    s: Seq<(Seq<char>, T)>,
    key: Seq<char>,
    value: T,
    other: Seq<char>,
)
    requires
        ordered(s),
    ensures
        got(with(s, key, value), key) == Some(value),
        other != key ==> got(with(s, key, value), other) == got(s, other),
{
    let w = with(s, key, value);
    let p = order::place(s, key, false);
    lemma_stands(s, key);
    law_the_order_is_kept(s, key, value);
    assert(w[p] == (key, value));
    law_what_is_held_is_got(w, key, p);
    if other != key {
        lemma_same_under(s, w, other, p, key, holds(s, key));
    }
}

/// What was taken out is gone, and nothing under another key has changed.
pub proof fn law_what_is_taken_out_is_gone<T>(
    s: Seq<(Seq<char>, T)>,
    key: Seq<char>,
    other: Seq<char>,
)
    requires
        ordered(s),
    ensures
        got(without(s, key), key) is None,
        other != key ==> got(without(s, key), other) == got(s, other),
{
    let o = without(s, key);
    let p = order::place(s, key, false);
    lemma_stands(s, key);
    if s.len() > 0 {
        law_the_order_is_kept(s, key, s[0].1);
    }
    lemma_stands(o, key);
    if holds(s, key) {
        order::law_texts_are_ordered(key, key, key);
        if holds(o, key) {
            let r = order::place(o, key, false);
            let a = if r < p {
                r
            } else {
                r + 1
            };
            assert(o[r] == s[a]);
            if a < p {
                assert(order::less(s[a].0, key));
            } else {
                assert(order::less(key, s[a].0));
            }
        }
        if other != key {
            lemma_same_without(s, other, p, key);
        }
    }
}

proof fn lemma_same_without<T>(s: Seq<(Seq<char>, T)>, other: Seq<char>, p: int, key: Seq<char>)
    requires
        ordered(s),
        0 <= p < s.len(),
        s[p].0 == key,
        other != key,
        ordered(s.remove(p)),
    ensures
        got(s.remove(p), other) == got(s, other),
{
    let o = s.remove(p);
    lemma_stands(s, other);
    lemma_stands(o, other);
    if holds(s, other) {
        let i = order::place(s, other, false);
        let k = if i < p {
            i
        } else {
            i - 1
        };
        assert(o[k] == s[i]);
        law_what_is_held_is_got(o, other, k);
    }
    if holds(o, other) {
        let i = order::place(o, other, false);
        let k = if i < p {
            i
        } else {
            i + 1
        };
        assert(o[i] == s[k]);
        law_what_is_held_is_got(s, other, k);
    }
}

proof fn lemma_same_under<T>(
    s: Seq<(Seq<char>, T)>,
    w: Seq<(Seq<char>, T)>,
    other: Seq<char>,
    p: int,
    key: Seq<char>,
    replaced: bool,
)
    requires
        ordered(s),
        ordered(w),
        0 <= p <= s.len(),
        replaced ==> p < s.len() && s[p].0 == key,
        w.len() == s.len() + (if replaced {
            0int
        } else {
            1
        }),
        w[p].0 == key,
        replaced ==> w =~= s.update(p, w[p]),
        !replaced ==> w =~= s.insert(p, w[p]),
        other != key,
    ensures
        got(w, other) == got(s, other),
{
    lemma_stands(s, other);
    lemma_stands(w, other);
    if holds(s, other) {
        let i = order::place(s, other, false);
        let k = if replaced || i < p {
            i
        } else {
            i + 1
        };
        assert(w[k] == s[i]);
        law_what_is_held_is_got(w, other, k);
    }
    if holds(w, other) {
        let i = order::place(w, other, false);
        assert(i != p);
        let k = if replaced || i < p {
            i
        } else {
            i - 1
        };
        assert(w[i] == s[k]);
        law_what_is_held_is_got(s, other, k);
    }
}

/// Records can be looked at through what they hold.
pub proof fn law_records_are_seen_through<T, U>(
    s: Seq<(Seq<char>, T)>,
    f: spec_fn(T) -> U,
    key: Seq<char>,
    value: T,
)
    ensures
        order::exchanged(with(s, key, value), f) == with(order::exchanged(s, f), key, f(value)),
        order::exchanged(without(s, key), f) == without(order::exchanged(s, f), key),
        holds(order::exchanged(s, f), key) == holds(s, key),
        got(order::exchanged(s, f), key) == (match got(s, key) {
            Some(v) => Some(f(v)),
            None => None,
        }),
        ordered(order::exchanged(s, f)) == ordered(s),
{
    let e = order::exchanged(s, f);
    order::lemma_place_by_key(s, f, key, false);
    order::lemma_place(s, key, false);
    assert(order::exchanged(with(s, key, value), f) =~= with(e, key, f(value)));
    assert(order::exchanged(without(s, key), f) =~= without(e, key));
    if ordered(s) {
        assert forall|i: int, j: int| 0 <= i < j < e.len() implies order::less(
            (#[trigger] e[i]).0,
            (#[trigger] e[j]).0,
        ) by {
            assert(order::less(s[i].0, s[j].0));
        }
    }
    if ordered(e) {
        assert forall|i: int, j: int| 0 <= i < j < s.len() implies order::less(
            (#[trigger] s[i]).0,
            (#[trigger] s[j]).0,
        ) by {
            assert(order::less(e[i].0, e[j].0));
        }
    }
}

} // verus!
