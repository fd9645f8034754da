//! What a store holds: the size of every object, by its key.
use vstd::prelude::*;

use crate::ordered::ascending;
use crate::text;
use crate::text::precedes;

verus! {

/// One object of a store.
#[derive(Debug)]
pub struct Stored {
    /// The key, exactly as the store spells it.
    pub key: String,
    pub size: u64,
}

/// The keys of objects.
pub open spec fn keys(s: Seq<Stored>) -> Seq<Seq<char>> {
    s.map_values(|o: Stored| o.key@)
}

/// The size of the object with that key, among objects with distinct keys.
pub open spec fn size_at(s: Seq<Stored>, key: Seq<char>) -> Option<u64> {
    if keys(s).contains(key) {
        Some(s[choose|i: int| 0 <= i < s.len() && keys(s)[i] == key].size)
    } else {
        None
    }
}

/// All the objects of a store, in ascending order of their keys.
#[derive(Debug)]
pub struct Objects {
    stored: Vec<Stored>,
}

impl Default for Objects {
    fn default() -> (o: Objects)
        ensures
            o.contents().len() == 0,
            forall|key: Seq<char>| #[trigger] o.holds(key) is None,
    {
        Objects { stored: Vec::new() }
    }
}

impl Objects {
    /// The objects, in ascending order of their keys.
    pub closed spec fn contents(self) -> Seq<Stored> {
        self.stored@
    }

    /// The keys ascend, so each stands there once.
    #[verifier::type_invariant]
    pub open spec fn ordered(self) -> bool {
        ascending(keys(self.contents()))
    }

    /// The size of the object with that key, if there is one.
    pub open spec fn holds(self, key: Seq<char>) -> Option<u64> {
        size_at(self.contents(), key)
    }

    /// Where `key` is, or where it would have to be.
    fn place(&self, key: &str) -> (r: usize)
        ensures
            r <= self.stored@.len(),
            forall|i: int| 0 <= i < r ==> precedes(#[trigger] keys(self.stored@)[i], key@),
            forall|i: int|
                r <= i < self.stored@.len() ==> !precedes(#[trigger] keys(self.stored@)[i], key@),
    {
        proof {
            use_type_invariant(self);
        }
        let mut from: usize = 0;
        let mut to: usize = self.stored.len();
        let ghost s = keys(self.stored@);
        while from < to
            invariant
                from <= to <= self.stored@.len(),
                s == keys(self.stored@),
                ascending(s),
                forall|i: int| 0 <= i < from ==> precedes(#[trigger] s[i], key@),
                forall|i: int| to <= i < self.stored@.len() ==> !precedes(#[trigger] s[i], key@),
            decreases to - from,
        {
            let middle: usize = from + (to - from) / 2;
            assert(s[middle as int] == self.stored@[middle as int].key@);
            if text::before(self.stored[middle].key.as_str(), key) {
                proof {
                    assert forall|i: int| 0 <= i < middle + 1 implies precedes(
                        #[trigger] s[i],
                        key@,
                    ) by {
                        if i < middle {
                            text::lemma_precedes_transitive(s[i], s[middle as int], key@);
                        }
                    }
                }
                from = middle + 1;
            } else {
                proof {
                    assert forall|i: int| middle <= i < self.stored@.len() implies !precedes(
                        #[trigger] s[i],
                        key@,
                    ) by {
                        if i > middle && precedes(s[i], key@) {
                            text::lemma_precedes_transitive(s[middle as int], s[i], key@);
                        }
                    }
                }
                to = middle;
            }
        }
        from
    }

    /// The size of the object with that key, if there is one.
    pub fn get(&self, key: &str) -> (r: Option<u64>)
        ensures
            r == self.holds(key@),
    {
        proof {
            use_type_invariant(self);
        }
        let i = self.place(key);
        let ghost s = keys(self.stored@);
        if i < self.stored.len() && text::same(self.stored[i].key.as_str(), key) {
            proof {
                assert(s[i as int] == key@);
                lemma_found(self.stored@, i as int);
            }
            Some(self.stored[i].size)
        } else {
            proof {
                if s.contains(key@) {
                    let j = choose|j: int| 0 <= j < s.len() && s[j] == key@;
                    text::lemma_precedes_irreflexive(key@);
                    assert(j >= i);
                    if j > i {
                        assert(precedes(s[i as int], s[j]));
                    } else {
                        assert(s[i as int] == self.stored@[i as int].key@);
                    }
                }
            }
            None
        }
    }

    /// Puts an object in. One with that key that is already there is superseded.
    pub fn insert(&mut self, key: String, size: u64)
        ensures
            final(self).ordered(),
            forall|k: Seq<char>| #[trigger]
                final(self).holds(k) == (if k == key@ {
                    Some(size)
                } else {
                    old(self).holds(k)
                }),
    {
        proof {
            use_type_invariant(&*self);
        }
        let i = self.place(key.as_str());
        let mut stored: Vec<Stored> = Vec::new();
        let ghost before = self.stored@;
        std::mem::swap(&mut stored, &mut self.stored);
        let ghost name = key@;
        if i < stored.len() && text::same(stored[i].key.as_str(), key.as_str()) {
            assert(keys(before)[i as int] == name);
            stored.set(i, Stored { key, size });
            proof {
                assert(keys(stored@) =~= keys(before));
                lemma_replaced(before, stored@, i as int);
            }
        } else {
            stored.insert(i, Stored { key, size });
            proof {
                let added = stored@[i as int];
                assert(stored@ =~= before.insert(i as int, added));
                if i < before.len() {
                    assert(keys(before)[i as int] == before[i as int].key@);
                }
                lemma_inserted(before, i as int, added);
            }
        }
        self.stored = stored;
    }

    /// How many objects there are.
    pub fn len(&self) -> (n: usize)
        ensures
            n == self.contents().len(),
            self.ordered(),
    {
        proof {
            use_type_invariant(self);
        }
        self.stored.len()
    }

    /// The object at that place in the order of the keys.
    pub fn at(&self, i: usize) -> (o: &Stored)
        requires
            i < self.contents().len(),
        ensures
            *o == self.contents()[i as int],
            self.holds(o.key@) == Some(o.size),
    {
        proof {
            use_type_invariant(self);
            lemma_found(self.stored@, i as int);
            assert(keys(self.stored@)[i as int] == self.stored@[i as int].key@);
        }
        &self.stored[i]
    }
}

proof fn lemma_replaced(before: Seq<Stored>, after: Seq<Stored>, i: int)
    requires
        ascending(keys(before)),
        0 <= i < before.len(),
        after.len() == before.len(),
        keys(after) == keys(before),
        forall|j: int| 0 <= j < before.len() && j != i ==> after[j] == before[j],
    ensures
        forall|k: Seq<char>| #[trigger]
            size_at(after, k) == (if k == keys(before)[i] {
                Some(after[i].size)
            } else {
                size_at(before, k)
            }),
{
    assert forall|k: Seq<char>| #[trigger]
        size_at(after, k) == (if k == keys(before)[i] {
            Some(after[i].size)
        } else {
            size_at(before, k)
        }) by {
        if keys(before).contains(k) {
            let j = choose|j: int| 0 <= j < before.len() && keys(before)[j] == k;
            lemma_found(before, j);
            lemma_found(after, j);
            lemma_found(after, i);
        }
    }
}

proof fn lemma_inserted(before: Seq<Stored>, i: int, added: Stored)
    requires
        ascending(keys(before)),
        0 <= i <= before.len(),
        forall|j: int| 0 <= j < i ==> precedes(#[trigger] keys(before)[j], added.key@),
        forall|j: int| i <= j < before.len() ==> !precedes(#[trigger] keys(before)[j], added.key@),
        i < before.len() ==> keys(before)[i] != added.key@,
    ensures
        ascending(keys(before.insert(i, added))),
        forall|k: Seq<char>| #[trigger]
            size_at(before.insert(i, added), k) == (if k == added.key@ {
                Some(added.size)
            } else {
                size_at(before, k)
            }),
{
    let after = before.insert(i, added);
    let k0 = added.key@;
    assert(keys(after) =~= keys(before).insert(i, k0));
    assert forall|a: int, b: int| 0 <= a < b < after.len() implies precedes(
        #[trigger] keys(after)[a],
        #[trigger] keys(after)[b],
    ) by {
        if b == i {
            assert(keys(after)[a] == keys(before)[a]);
        } else if a == i {
            assert(keys(after)[b] == keys(before)[b - 1]);
            text::lemma_precedes_total(keys(before)[b - 1], k0);
            if keys(before)[b - 1] == k0 {
                assert(precedes(keys(before)[i], keys(before)[b - 1]));
            }
        } else {
            let x = if a < i {
                a
            } else {
                a - 1
            };
            let y = if b < i {
                b
            } else {
                b - 1
            };
            assert(keys(after)[a] == keys(before)[x] && keys(after)[b] == keys(before)[y]);
        }
    }
    assert forall|k: Seq<char>| #[trigger]
        size_at(after, k) == (if k == k0 {
            Some(added.size)
        } else {
            size_at(before, k)
        }) by {
        assert(keys(after)[i] == k0);
        if k == k0 {
            lemma_found(after, i);
        } else if keys(before).contains(k) {
            let j = choose|j: int| 0 <= j < before.len() && keys(before)[j] == k;
            let moved = if j < i {
                j
            } else {
                j + 1
            };
            assert(keys(after)[moved] == k);
            lemma_found(before, j);
            lemma_found(after, moved);
        } else if keys(after).contains(k) {
            let j = choose|j: int| 0 <= j < after.len() && keys(after)[j] == k;
            if j < i {
                assert(keys(before)[j] == k);
            } else if j > i {
                assert(keys(before)[j - 1] == k);
            }
        }
    }
}

/// Among objects with distinct keys, a key leads to its own object.
proof fn lemma_found(s: Seq<Stored>, i: int)
    requires
        ascending(keys(s)),
        0 <= i < s.len(),
    ensures
        size_at(s, keys(s)[i]) == Some(s[i].size),
{
    let key = keys(s)[i];
    assert(keys(s).contains(key));
    let j = choose|j: int| 0 <= j < s.len() && keys(s)[j] == key;
    text::lemma_precedes_irreflexive(key);
    if i < j {
        assert(precedes(keys(s)[i], keys(s)[j]));
    } else if j < i {
        assert(precedes(keys(s)[j], keys(s)[i]));
    }
}

/// A store holds a key with a size exactly where one of its objects has that key and that size,
/// and no key twice.
pub proof fn a_key_leads_to_its_object(objects: Objects, key: Seq<char>, size: u64)
    requires
        objects.ordered(),
    ensures
        objects.holds(key) == Some(size) <==> exists|i: int|
            0 <= i < objects.contents().len() && (#[trigger] objects.contents()[i]).key@ == key
                && objects.contents()[i].size == size,
        objects.holds(key) is None <==> forall|i: int|
            0 <= i < objects.contents().len() ==> (#[trigger] objects.contents()[i]).key@ != key,
        forall|i: int, j: int|
            0 <= i < j < objects.contents().len() ==> (#[trigger] objects.contents()[i]).key@ != (
            #[trigger] objects.contents()[j]).key@,
{
    let s = objects.contents();
    let k = keys(s);
    assert forall|i: int| 0 <= i < s.len() implies k[i] == (#[trigger] s[i]).key@ by {}
    if k.contains(key) {
        let i = choose|i: int| 0 <= i < k.len() && k[i] == key;
        lemma_found(s, i);
        assert(s[i].key@ == key);
    }
    assert forall|i: int| 0 <= i < s.len() && (#[trigger] s[i]).key@ == key implies objects.holds(
        key,
    ) == Some(s[i].size) by {
        lemma_found(s, i);
        assert(k[i] == key);
    }
    assert forall|i: int, j: int| 0 <= i < j < s.len() implies (#[trigger] s[i]).key@ != (
    #[trigger] s[j]).key@ by {
        assert(precedes(k[i], k[j]));
        text::lemma_precedes_irreflexive(k[i]);
    }
}

} // verus!
