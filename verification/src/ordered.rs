//! Sets of strings, kept as vectors in ascending order with nothing twice, and what it means
//! to put things in the order of their keys.
use vstd::prelude::*;
use vstd::seq_lib::{to_multiset_build, to_multiset_insert};

use crate::text;
use crate::text::{precedes, views};

verus! {

/// Whether `s` is in strictly ascending order.
pub open spec fn ascending(s: Seq<Seq<char>>) -> bool {
    forall|i: int, j: int| 0 <= i < j < s.len() ==> precedes(#[trigger] s[i], #[trigger] s[j])
}

/// The number of entries that come before `key`.
pub fn lower_bound(v: &Vec<String>, key: &str) -> (r: usize)
    requires
        ascending(views(v@)),
    ensures
        r <= v@.len(),
        forall|i: int| 0 <= i < r ==> precedes(#[trigger] views(v@)[i], key@),
        forall|i: int| r <= i < v@.len() ==> !precedes(#[trigger] views(v@)[i], key@),
{
    let mut from: usize = 0;
    let mut to: usize = v.len();
    while from < to
        invariant
            from <= to <= v@.len(),
            ascending(views(v@)),
            forall|i: int| 0 <= i < from ==> precedes(#[trigger] views(v@)[i], key@),
            forall|i: int| to <= i < v@.len() ==> !precedes(#[trigger] views(v@)[i], key@),
        decreases to - from,
    {
        let middle: usize = from + (to - from) / 2;
        let ghost s = views(v@);
        assert(s[middle as int] == v@[middle as int]@);
        if text::before(v[middle].as_str(), key) {
            proof {
                assert forall|i: int| 0 <= i < middle + 1 implies precedes(#[trigger] s[i], key@) by {
                    if i < middle {
                        text::lemma_precedes_transitive(s[i], s[middle as int], key@);
                    }
                }
            }
            from = middle + 1;
        } else {
            proof {
                assert forall|i: int| middle <= i < v@.len() implies !precedes(
                    #[trigger] s[i],
                    key@,
                ) by {
                    if i > middle && precedes(s[i], key@) {
                        text::lemma_precedes_transitive(s[middle as int], s[i], key@);
                    }
                }
            }
            to = middle;
        }
    }
    from
}

/// Whether `key` is in the set.
pub fn contains(v: &Vec<String>, key: &str) -> (r: bool)
    requires
        ascending(views(v@)),
    ensures
        r == views(v@).contains(key@),
{
    let i = lower_bound(v, key);
    let ghost s = views(v@);
    let found = i < v.len() && text::same(v[i].as_str(), key);
    proof {
        if found {
            assert(s[i as int] == key@);
        } else if s.contains(key@) {
            let j = choose|j: int| 0 <= j < s.len() && s[j] == key@;
            text::lemma_precedes_irreflexive(key@);
            assert(j >= i);
            if j > i {
                assert(precedes(s[i as int], s[j]));
            } else {
                assert(s[i as int] == v@[i as int]@);
            }
        }
    }
    found
}

/// Puts `key` into the set.
pub fn insert(v: &mut Vec<String>, key: String)
    requires
        ascending(views(old(v)@)),
    ensures
        ascending(views(final(v)@)),
        forall|t: Seq<char>|
            views(final(v)@).contains(t) <==> views(old(v)@).contains(t) || t == key@,
{
    let i = lower_bound(v, key.as_str());
    let ghost before = views(v@);
    if i < v.len() && text::same(v[i].as_str(), key.as_str()) {
        assert(before[i as int] == key@);
        return;
    }
    let ghost k = key@;
    v.insert(i, key);
    proof {
        let after = views(v@);
        assert(after =~= before.insert(i as int, k));
        assert forall|a: int, b: int| 0 <= a < b < after.len() implies precedes(
            #[trigger] after[a],
            #[trigger] after[b],
        ) by {
            if i < before.len() {
                text::lemma_precedes_total(before[i as int], k);
            }
            if b == i {
                assert(after[a] == before[a]);
            } else if a == i {
                assert(after[b] == before[b - 1]);
                text::lemma_precedes_total(before[b - 1], k);
                if before[b - 1] == k {
                    assert(b - 1 > i);
                    assert(precedes(before[i as int], before[b - 1]));
                }
            } else {
                let x = if a < i {
                    a
                } else {
                    a - 1
                };
                let y = if b < i {
                    b
                } else {
                    b - 1
                };
                assert(after[a] == before[x] && after[b] == before[y]);
            }
        }
        assert forall|t: Seq<char>| after.contains(t) <==> before.contains(t) || t == k by {
            if after.contains(t) {
                let j = choose|j: int| 0 <= j < after.len() && after[j] == t;
                if j < i {
                    assert(before[j] == t);
                } else if j > i {
                    assert(before[j - 1] == t);
                }
            }
            if before.contains(t) {
                let j = choose|j: int| 0 <= j < before.len() && before[j] == t;
                if j < i {
                    assert(after[j] == t);
                } else {
                    assert(after[j + 1] == t);
                }
            }
            assert(after[i as int] == k);
        }
    }
}

/// A text is never before its own beginning.
pub proof fn lemma_prefix_not_after(p: Seq<char>, s: Seq<char>)
    requires
        p.is_prefix_of(s),
    ensures
        !precedes(s, p),
    decreases p.len(),
{
    if p.len() > 0 {
        assert(p[0] == s[0]);
        assert(p.drop_first() =~= s.drop_first().subrange(0, p.len() - 1)) by {
            assert(p =~= s.subrange(0, p.len() as int));
        }
        lemma_prefix_not_after(p.drop_first(), s.drop_first());
    }
}

/// Whatever lies between `p` and a text that begins with `p` begins with `p` too.
pub proof fn lemma_prefix_interval(p: Seq<char>, a: Seq<char>, b: Seq<char>)
    requires
        !precedes(a, p),
        precedes(a, b),
        p.is_prefix_of(b),
    ensures
        p.is_prefix_of(a),
    decreases p.len(),
{
    if p.len() == 0 {
        assert(p =~= a.subrange(0, 0));
    } else {
        assert(p[0] == b.subrange(0, p.len() as int)[0]);
        assert(a.len() > 0);
        assert(a[0] == p[0]);
        assert(p.drop_first() =~= b.drop_first().subrange(0, p.len() - 1)) by {
            assert(p =~= b.subrange(0, p.len() as int));
        }
        lemma_prefix_interval(p.drop_first(), a.drop_first(), b.drop_first());
        let q = p.drop_first();
        assert(q =~= a.drop_first().subrange(0, q.len() as int));
        assert forall|i: int| 0 <= i < p.len() implies p[i] == a[i] by {
            if i > 0 {
                assert(p[i] == q[i - 1]);
                assert(q[i - 1] == a.drop_first().subrange(0, q.len() as int)[i - 1]);
            }
        }
        assert(p =~= a.subrange(0, p.len() as int));
    }
}

/// The place of a key among things in the order of their keys: behind everything that it does
/// not come before.
pub open spec fn slot<A>(s: Seq<A>, key_of: spec_fn(A) -> Seq<char>, key: Seq<char>) -> nat
    decreases s.len(),
{
    if s.len() > 0 && precedes(key, key_of(s.last())) {
        slot(s.drop_last(), key_of, key)
    } else {
        s.len()
    }
}

/// Things put in the order of their keys. Those with the same key keep their order.
pub open spec fn arrange<A>(s: Seq<A>, key_of: spec_fn(A) -> Seq<char>) -> Seq<A>
    decreases s.len(),
{
    if s.len() == 0 {
        s
    } else {
        let before = arrange(s.drop_last(), key_of);
        before.insert(slot(before, key_of, key_of(s.last())) as int, s.last())
    }
}

/// Whether things are in the order of their keys.
pub open spec fn arranged<A>(s: Seq<A>, key_of: spec_fn(A) -> Seq<char>) -> bool {
    forall|a: int, b: int|
        0 <= a < b < s.len() ==> !precedes(key_of(#[trigger] s[b]), key_of(#[trigger] s[a]))
}

pub proof fn lemma_slot_bound<A>(s: Seq<A>, key_of: spec_fn(A) -> Seq<char>, key: Seq<char>)
    ensures
        slot(s, key_of, key) <= s.len(),
    decreases s.len(),
{
    if s.len() > 0 {
        lemma_slot_bound(s.drop_last(), key_of, key);
    }
}

/// Among arranged things, what stands before the slot of a key is not behind the key, and what
/// stands from there on is.
proof fn lemma_slot<A>(s: Seq<A>, key_of: spec_fn(A) -> Seq<char>, key: Seq<char>)
    requires
        arranged(s, key_of),
    ensures
        forall|i: int|
            0 <= i < slot(s, key_of, key) ==> !precedes(key, key_of(#[trigger] s[i])),
        forall|i: int|
            slot(s, key_of, key) <= i < s.len() ==> precedes(key, key_of(#[trigger] s[i])),
    decreases s.len(),
{
    if s.len() > 0 {
        let last = key_of(s.last());
        let before = s.drop_last();
        if precedes(key, last) {
            assert forall|a: int, b: int| 0 <= a < b < before.len() implies !precedes(
                key_of(#[trigger] before[b]),
                key_of(#[trigger] before[a]),
            ) by {
                assert(before[a] == s[a] && before[b] == s[b]);
            }
            lemma_slot(before, key_of, key);
            lemma_slot_bound(before, key_of, key);
            assert forall|i: int| 0 <= i < slot(s, key_of, key) implies !precedes(
                key,
                key_of(#[trigger] s[i]),
            ) by {
                assert(before[i] == s[i]);
            }
            assert forall|i: int| slot(s, key_of, key) <= i < s.len() implies precedes(
                key,
                key_of(#[trigger] s[i]),
            ) by {
                if i < before.len() {
                    assert(before[i] == s[i]);
                }
            }
        } else {
            assert forall|i: int| 0 <= i < s.len() implies !precedes(
                key,
                key_of(#[trigger] s[i]),
            ) by {
                let k = key_of(s[i]);
                if i < s.len() - 1 && precedes(key, k) {
                    assert(!precedes(key_of(s[s.len() - 1]), k));
                    text::lemma_precedes_total(last, k);
                    if precedes(k, last) {
                        text::lemma_precedes_transitive(key, k, last);
                    }
                }
            }
        }
    }
}

proof fn lemma_insert_arranged<A>(s: Seq<A>, key_of: spec_fn(A) -> Seq<char>, x: A)
    requires
        arranged(s, key_of),
    ensures
        arranged(s.insert(slot(s, key_of, key_of(x)) as int, x), key_of),
{
    let key = key_of(x);
    let n = slot(s, key_of, key) as int;
    lemma_slot_bound(s, key_of, key);
    lemma_slot(s, key_of, key);
    let t = s.insert(n, x);
    assert forall|a: int, b: int| 0 <= a < b < t.len() implies !precedes(
        key_of(#[trigger] t[b]),
        key_of(#[trigger] t[a]),
    ) by {
        if b < n {
            assert(t[a] == s[a] && t[b] == s[b]);
        } else if b == n {
            assert(t[a] == s[a]);
        } else if a < n {
            assert(t[a] == s[a] && t[b] == s[b - 1]);
        } else if a == n {
            assert(t[b] == s[b - 1]);
            let k = key_of(s[b - 1]);
            if precedes(k, key) {
                text::lemma_precedes_transitive(key, k, key);
                text::lemma_precedes_irreflexive(key);
            }
        } else {
            assert(t[a] == s[a - 1] && t[b] == s[b - 1]);
        }
    }
}

/// Arranging things puts them in the order of their keys, and neither loses nor adds any.
pub proof fn arranging_orders_and_keeps_everything<A>(s: Seq<A>, key_of: spec_fn(A) -> Seq<char>)
    ensures
        arranged(arrange(s, key_of), key_of),
        arrange(s, key_of).to_multiset() == s.to_multiset(),
        arrange(s, key_of).len() == s.len(),
    decreases s.len(),
{
    if s.len() > 0 {
        let before = arrange(s.drop_last(), key_of);
        let next = s.last();
        arranging_orders_and_keeps_everything(s.drop_last(), key_of);
        lemma_slot_bound(before, key_of, key_of(next));
        lemma_insert_arranged(before, key_of, next);
        to_multiset_insert(before, slot(before, key_of, key_of(next)) as int, next);
        to_multiset_build(s.drop_last(), next);
        assert(s.drop_last().push(next) =~= s);
    }
}

/// Things with the same key keep the order in which they came.
pub proof fn equal_keys_keep_their_order<A>(
    s: Seq<A>,
    key_of: spec_fn(A) -> Seq<char>,
    key: Seq<char>,
)
    ensures
        arrange(s, key_of).filter(|x: A| key_of(x) == key) == s.filter(|x: A| key_of(x) == key),
    decreases s.len(),
{
    let keep = |x: A| key_of(x) == key;
    if s.len() > 0 {
        let front = s.drop_last();
        let x = s.last();
        let before = arrange(front, key_of);
        let n = slot(before, key_of, key_of(x)) as int;
        equal_keys_keep_their_order(front, key_of, key);
        arranging_orders_and_keeps_everything(front, key_of);
        lemma_slot_bound(before, key_of, key_of(x));
        lemma_slot(before, key_of, key_of(x));
        let a = before.take(n);
        let b = before.skip(n);
        assert(before =~= a + b);
        assert(before.insert(n, x) =~= a.push(x) + b);
        lemma_filter_concat(a, b, keep);
        lemma_filter_concat(a.push(x), b, keep);
        lemma_filter_concat(front, seq![x], keep);
        lemma_filter_concat(a, seq![x], keep);
        assert(front + seq![x] =~= s);
        assert(a + seq![x] =~= a.push(x));
        lemma_filter_one(x, keep);
        if key_of(x) == key {
            assert forall|i: int| 0 <= i < b.len() implies !keep(#[trigger] b[i]) by {
                assert(b[i] == before[n + i]);
                text::lemma_precedes_irreflexive(key);
            }
            lemma_filter_none(b, keep);
        }
    } else {
        assert(arrange(s, key_of) =~= s);
    }
}

proof fn lemma_filter_concat<A>(a: Seq<A>, b: Seq<A>, keep: spec_fn(A) -> bool)
    ensures
        (a + b).filter(keep) == a.filter(keep) + b.filter(keep),
    decreases b.len(),
{
    reveal(Seq::filter);
    if b.len() > 0 {
        let front = b.drop_last();
        lemma_filter_concat(a, front, keep);
        assert((a + b).drop_last() =~= a + front);
        assert((a + b).last() == b.last());
        assert((a + b).filter(keep) =~= a.filter(keep) + b.filter(keep));
    } else {
        assert(a + b =~= a);
        assert(a.filter(keep) + b.filter(keep) =~= a.filter(keep));
    }
}

proof fn lemma_filter_one<A>(x: A, keep: spec_fn(A) -> bool)
    ensures
        seq![x].filter(keep) == (if keep(x) {
            seq![x]
        } else {
            Seq::empty()
        }),
{
    reveal(Seq::filter);
    let s = seq![x];
    assert(s.drop_last() =~= Seq::empty());
    assert(s.drop_last().filter(keep) =~= Seq::empty());
    assert(Seq::<A>::empty().push(x) =~= s);
}

proof fn lemma_filter_none<A>(s: Seq<A>, keep: spec_fn(A) -> bool)
    requires
        forall|i: int| 0 <= i < s.len() ==> !keep(#[trigger] s[i]),
    ensures
        s.filter(keep) == Seq::<A>::empty(),
    decreases s.len(),
{
    reveal(Seq::filter);
    if s.len() > 0 {
        let front = s.drop_last();
        assert forall|i: int| 0 <= i < front.len() implies !keep(#[trigger] front[i]) by {
            assert(front[i] == s[i]);
        }
        assert(!keep(s[s.len() - 1]));
        lemma_filter_none(front, keep);
    } else {
        assert(s.filter(keep) =~= Seq::empty());
    }
}

/// Where keys ascend, each stands before all that come behind it, so that none is there twice;
/// one more key at the end keeps them so exactly where it is behind the last.
pub proof fn ascending_keys_never_repeat(s: Seq<Seq<char>>, i: int, j: int, key: Seq<char>)
    ensures
        ascending(s) && 0 <= i < j < s.len() ==> precedes(s[i], s[j]) && s[i] != s[j],
        ascending(Seq::empty()),
        ascending(seq![key]),
        s.len() > 0 ==> (ascending(s.push(key)) <==> ascending(s) && precedes(s.last(), key)),
{
    if ascending(s) && 0 <= i < j < s.len() {
        text::lemma_precedes_irreflexive(s[i]);
    }
    let t = s.push(key);
    if s.len() > 0 {
        if ascending(s) && precedes(s.last(), key) {
            assert forall|a: int, b: int| 0 <= a < b < t.len() implies precedes(
                #[trigger] t[a],
                #[trigger] t[b],
            ) by {
                if b == s.len() && a < s.len() - 1 {
                    assert(precedes(s[a], s[s.len() - 1]));
                    text::lemma_precedes_transitive(s[a], s.last(), key);
                }
            }
        }
        if ascending(t) {
            assert forall|a: int, b: int| 0 <= a < b < s.len() implies precedes(
                #[trigger] s[a],
                #[trigger] s[b],
            ) by {
                assert(precedes(t[a], t[b]));
            }
            assert(precedes(t[s.len() - 1], t[s.len() as int]));
        }
    }
}

} // verus!
