//! A map with text keys, kept as a vector in key order.

use crate::text::{self, is_ordered, same};
use vstd::prelude::*;

verus! {

/// Whether the keys of `entries` ascend, none occurring twice.
pub open spec fn keys_ascend<V>(entries: Seq<(String, V)>) -> bool {
    forall|i: int, j: int|
        0 <= i < j < entries.len() ==> text::ordered(#[trigger] entries[i].0@, #[trigger] entries[j].0@)
            && entries[i].0@ != entries[j].0@
}

/// The map that `entries` stand for.
pub open spec fn entries_map<V>(entries: Seq<(String, V)>) -> Map<Seq<char>, V> {
    Map::new(
        |k: Seq<char>| exists|i: int| 0 <= i < entries.len() && #[trigger] entries[i].0@ == k,
        |k: Seq<char>|
            entries[choose|i: int| 0 <= i < entries.len() && #[trigger] entries[i].0@ == k].1,
    )
}

/// A map from texts to values. Walking it by index goes through the keys in order.
#[verifier::reject_recursive_types(V)]
pub struct StringMap<V> {
    entries: Vec<(String, V)>,
}

impl<V> View for StringMap<V> {
    type V = Map<Seq<char>, V>;

    closed spec fn view(&self) -> Map<Seq<char>, V> {
        entries_map(self.entries@)
    }
}

impl<V> StringMap<V> {
    #[verifier::type_invariant]
    spec fn ascending(self) -> bool {
        keys_ascend(self.entries@)
    }

    /// The keys and values in key order.
    pub closed spec fn sequence(&self) -> Seq<(String, V)> {
        self.entries@
    }

    /// A map with nothing in it.
    pub fn new() -> (r: Self)
        ensures
            r@ == Map::<Seq<char>, V>::empty(),
    {
        let r = StringMap { entries: Vec::new() };
        assert(r@ =~= Map::<Seq<char>, V>::empty());
        r
    }

    /// How many keys there are.
    pub fn len(&self) -> (r: usize)
        ensures
            r == self.sequence().len(),
            self@ == entries_map(self.sequence()),
            keys_ascend(self.sequence()),
    {
        proof {
            use_type_invariant(self);
        }
        self.entries.len()
    }

    /// The key at position `i` of the key order.
    pub fn key_at(&self, i: usize) -> (r: &String)
        requires
            i < self.sequence().len(),
        ensures
            *r == self.sequence()[i as int].0,
    {
        &self.entries[i].0
    }

    /// The value at position `i` of the key order.
    pub fn value_at(&self, i: usize) -> (r: &V)
        requires
            i < self.sequence().len(),
        ensures
            *r == self.sequence()[i as int].1,
    {
        &self.entries[i].1
    }

    /// Position of the first key that is not in front of `key`.
    fn lower_bound(&self, key: &str) -> (r: usize)
        ensures
            r <= self.entries.len(),
            forall|i: int| 0 <= i < r ==> !text::ordered(key@, #[trigger] self.entries@[i].0@),
            forall|i: int| r <= i < self.entries.len() ==> text::ordered(key@, #[trigger] self.entries@[i].0@),
    {
        proof {
            use_type_invariant(self);
        }
        let mut lo: usize = 0;
        let mut hi: usize = self.entries.len();
        while lo < hi
            invariant
                lo <= hi <= self.entries.len(),
                keys_ascend(self.entries@),
                forall|i: int| 0 <= i < lo ==> !text::ordered(key@, #[trigger] self.entries@[i].0@),
                forall|i: int| hi <= i < self.entries.len() ==> text::ordered(key@, #[trigger] self.entries@[i].0@),
            decreases hi - lo,
        {
            let mid: usize = lo + (hi - lo) / 2;
            if is_ordered(key, self.entries[mid].0.as_str()) {
                assert forall|i: int| mid <= i < self.entries.len() implies text::ordered(
                    key@,
                    #[trigger] self.entries@[i].0@,
                ) by {
                    if i > mid {
                        text::lemma_ordered_transitive(key@, self.entries@[mid as int].0@, self.entries@[i].0@);
                    }
                }
                hi = mid;
            } else {
                assert forall|i: int| 0 <= i <= mid implies !text::ordered(
                    key@,
                    #[trigger] self.entries@[i].0@,
                ) by {
                    if i < mid && text::ordered(key@, self.entries@[i].0@) {
                        text::lemma_ordered_transitive(key@, self.entries@[i].0@, self.entries@[mid as int].0@);
                    }
                }
                lo = mid + 1;
            }
        }
        lo
    }

    /// The value under `key`.
    pub fn get(&self, key: &str) -> (r: Option<&V>)
        ensures
            match r {
                Some(v) => self@.contains_key(key@) && *v == self@[key@],
                None => !self@.contains_key(key@),
            },
    {
        let i: usize = self.lower_bound(key);
        proof {
            use_type_invariant(self);
            lemma_found(self.entries@, key@, i as int);
        }
        if i < self.entries.len() && same(self.entries[i].0.as_str(), key) {
            Some(&self.entries[i].1)
        } else {
            None
        }
    }

    /// Puts `value` under `key`, in place of what was there.
    pub fn insert(&mut self, key: String, value: V)
        ensures
            final(self)@ == old(self)@.insert(key@, value),
    {
        let i: usize = self.lower_bound(key.as_str());
        proof {
            use_type_invariant(&*self);
            lemma_found(self.entries@, key@, i as int);
        }
        let mut entries: Vec<(String, V)> = Vec::new();
        std::mem::swap(&mut entries, &mut self.entries);
        let ghost before = entries@;
        if i < entries.len() && same(entries[i].0.as_str(), key.as_str()) {
            entries.set(i, (key, value));
            proof {
                lemma_map_of_update(before, i as int, key, value);
            }
        } else {
            entries.insert(i, (key, value));
            proof {
                lemma_map_of_insert(before, i as int, key, value);
            }
        }
        self.entries = entries;
    }

    /// Takes `key` out.
    pub fn remove(&mut self, key: &str)
        ensures
            final(self)@ == old(self)@.remove(key@),
    {
        let i: usize = self.lower_bound(key);
        proof {
            use_type_invariant(&*self);
            lemma_found(self.entries@, key@, i as int);
        }
        if i < self.entries.len() && same(self.entries[i].0.as_str(), key) {
            let mut entries: Vec<(String, V)> = Vec::new();
            std::mem::swap(&mut entries, &mut self.entries);
            let ghost before = entries@;
            let _ = entries.remove(i);
            proof {
                lemma_map_of_remove(before, i as int, key@);
            }
            self.entries = entries;
        } else {
            assert(self@ =~= old(self)@.remove(key@));
        }
    }
}

/// Each entry is what the map holds under its key.
pub proof fn lemma_entry_in_map<V>(entries: Seq<(String, V)>, i: int)
    requires
        keys_ascend(entries),
        0 <= i < entries.len(),
    ensures
        entries_map(entries).contains_key(entries[i].0@),
        entries_map(entries)[entries[i].0@] == entries[i].1,
{
    let k = entries[i].0@;
    let c = choose|j: int| 0 <= j < entries.len() && #[trigger] entries[j].0@ == k;
    assert(0 <= c < entries.len() && entries[c].0@ == k);
    if c < i {
        assert(entries[c].0@ != entries[i].0@);
    }
    if i < c {
        assert(entries[i].0@ != entries[c].0@);
    }
}

/// A key is in the map exactly if it stands at its lower bound.
proof fn lemma_found<V>(entries: Seq<(String, V)>, key: Seq<char>, i: int)
    requires
        keys_ascend(entries),
        0 <= i <= entries.len(),
        forall|j: int| 0 <= j < i ==> !text::ordered(key, #[trigger] entries[j].0@),
        forall|j: int| i <= j < entries.len() ==> text::ordered(key, #[trigger] entries[j].0@),
    ensures
        entries_map(entries).contains_key(key) <==> i < entries.len() && entries[i].0@ == key,
        i < entries.len() && entries[i].0@ == key ==> entries_map(entries)[key] == entries[i].1,
{
    if entries_map(entries).contains_key(key) {
        let c = choose|j: int| 0 <= j < entries.len() && #[trigger] entries[j].0@ == key;
        text::lemma_ordered_reflexive(key);
        assert(c >= i);
        if c > i {
            assert(text::ordered(entries[i].0@, entries[c].0@));
            text::lemma_ordered_antisymmetric(key, entries[i].0@);
        }
    }
    if i < entries.len() && entries[i].0@ == key {
        lemma_entry_in_map(entries, i);
    }
}

proof fn lemma_map_of_update<V>(entries: Seq<(String, V)>, i: int, key: String, value: V)
    requires
        keys_ascend(entries),
        0 <= i < entries.len(),
        entries[i].0@ == key@,
    ensures
        keys_ascend(entries.update(i, (key, value))),
        entries_map(entries.update(i, (key, value))) == entries_map(entries).insert(key@, value),
{
    let after = entries.update(i, (key, value));
    let a = entries_map(after);
    let b = entries_map(entries).insert(key@, value);
    assert forall|k: Seq<char>| a.contains_key(k) <==> b.contains_key(k) by {
        if a.contains_key(k) {
            let c = choose|j: int| 0 <= j < after.len() && #[trigger] after[j].0@ == k;
            assert(entries[c].0@ == k);
        }
        if b.contains_key(k) {
            if k == key@ {
                assert(after[i].0@ == k);
            } else {
                let c = choose|j: int| 0 <= j < entries.len() && #[trigger] entries[j].0@ == k;
                assert(after[c].0@ == k);
            }
        }
    }
    assert forall|k: Seq<char>| #[trigger] a.contains_key(k) implies a[k] == b[k] by {
        let c = choose|j: int| 0 <= j < after.len() && #[trigger] after[j].0@ == k;
        lemma_entry_in_map(after, c);
        lemma_entry_in_map(entries, c);
        if c != i {
            assert(after[c].0@ != after[i].0@);
        }
    }
    assert(a =~= b);
}

proof fn lemma_map_of_insert<V>(entries: Seq<(String, V)>, i: int, key: String, value: V)
    requires
        keys_ascend(entries),
        0 <= i <= entries.len(),
        forall|j: int| 0 <= j < i ==> !text::ordered(key@, #[trigger] entries[j].0@),
        forall|j: int| i <= j < entries.len() ==> text::ordered(key@, #[trigger] entries[j].0@),
        i < entries.len() ==> entries[i].0@ != key@,
    ensures
        keys_ascend(entries.insert(i, (key, value))),
        entries_map(entries.insert(i, (key, value))) == entries_map(entries).insert(key@, value),
{
    let after = entries.insert(i, (key, value));
    lemma_found(entries, key@, i);
    assert forall|p: int, q: int| 0 <= p < q < after.len() implies text::ordered(
        #[trigger] after[p].0@,
        #[trigger] after[q].0@,
    ) && after[p].0@ != after[q].0@ by {
        let p0 = if p > i { p - 1 } else { p };
        let q0 = if q > i { q - 1 } else { q };
        if p != i && q != i {
            assert(after[p] == entries[p0] && after[q] == entries[q0]);
        } else if p == i {
            assert(after[q] == entries[q0]);
            assert(text::ordered(key@, entries[q0].0@));
            if entries[q0].0@ == key@ {
                assert(entries_map(entries).contains_key(key@));
            }
        } else {
            assert(after[p] == entries[p0]);
            text::lemma_ordered_total(key@, entries[p0].0@);
            text::lemma_ordered_reflexive(key@);
        }
    }
    let a = entries_map(after);
    let b = entries_map(entries).insert(key@, value);
    assert forall|k: Seq<char>| a.contains_key(k) <==> b.contains_key(k) by {
        if a.contains_key(k) {
            let c = choose|j: int| 0 <= j < after.len() && #[trigger] after[j].0@ == k;
            if c != i {
                let c0 = if c > i { c - 1 } else { c };
                assert(entries[c0].0@ == k);
            }
        }
        if b.contains_key(k) {
            if k == key@ {
                assert(after[i].0@ == k);
            } else {
                let c = choose|j: int| 0 <= j < entries.len() && #[trigger] entries[j].0@ == k;
                let c1 = if c >= i { c + 1 } else { c };
                assert(after[c1].0@ == k);
            }
        }
    }
    assert forall|k: Seq<char>| #[trigger] a.contains_key(k) implies a[k] == b[k] by {
        let c = choose|j: int| 0 <= j < after.len() && #[trigger] after[j].0@ == k;
        lemma_entry_in_map(after, c);
        if c != i {
            let c0 = if c > i { c - 1 } else { c };
            assert(after[c] == entries[c0]);
            lemma_entry_in_map(entries, c0);
            assert(after[c].0@ != after[i].0@);
        }
    }
    assert(a =~= b);
}

proof fn lemma_map_of_remove<V>(entries: Seq<(String, V)>, i: int, key: Seq<char>)
    requires
        keys_ascend(entries),
        0 <= i < entries.len(),
        entries[i].0@ == key,
    ensures
        keys_ascend(entries.remove(i)),
        entries_map(entries.remove(i)) == entries_map(entries).remove(key),
{
    let after = entries.remove(i);
    assert forall|p: int, q: int| 0 <= p < q < after.len() implies text::ordered(
        #[trigger] after[p].0@,
        #[trigger] after[q].0@,
    ) && after[p].0@ != after[q].0@ by {
        let p1 = if p >= i { p + 1 } else { p };
        let q1 = if q >= i { q + 1 } else { q };
        assert(after[p] == entries[p1] && after[q] == entries[q1]);
    }
    let a = entries_map(after);
    let b = entries_map(entries).remove(key);
    assert forall|k: Seq<char>| a.contains_key(k) <==> b.contains_key(k) by {
        if a.contains_key(k) {
            let c = choose|j: int| 0 <= j < after.len() && #[trigger] after[j].0@ == k;
            let c1 = if c >= i { c + 1 } else { c };
            assert(entries[c1].0@ == k);
            assert(entries[c1].0@ != entries[i].0@);
        }
        if b.contains_key(k) {
            let c = choose|j: int| 0 <= j < entries.len() && #[trigger] entries[j].0@ == k;
            let c0 = if c > i { c - 1 } else { c };
            assert(after[c0].0@ == k);
        }
    }
    assert forall|k: Seq<char>| #[trigger] a.contains_key(k) implies a[k] == b[k] by {
        let c = choose|j: int| 0 <= j < after.len() && #[trigger] after[j].0@ == k;
        let c1 = if c >= i { c + 1 } else { c };
        assert(after[c] == entries[c1]);
        lemma_entry_in_map(after, c);
        lemma_entry_in_map(entries, c1);
    }
    assert(a =~= b);
}

/// What was put under a key is found under it, and what was taken out is not; other keys are not touched.
pub proof fn law_map_gives_back_what_was_put_in<V>(
    put: &mut StringMap<V>,
    taken: &mut StringMap<V>,
    key: String,
    name: &str,
    value: V,
    other: Seq<char>,
)
    requires
        call_ensures(StringMap::<V>::insert, (put, key, value), ()),
        call_ensures(StringMap::<V>::remove, (taken, name), ()),
        other != key@,
        other != name@,
    ensures
        final(put)@.contains_key(key@) && final(put)@[key@] == value,
        !final(taken)@.contains_key(name@),
        final(put)@.contains_key(other) <==> old(put)@.contains_key(other),
        old(put)@.contains_key(other) ==> final(put)@[other] == old(put)@[other],
        final(taken)@.contains_key(other) <==> old(taken)@.contains_key(other),
        old(taken)@.contains_key(other) ==> final(taken)@[other] == old(taken)@[other],
{
}

/// A key is found exactly if it is in the map, with its value; a new map holds nothing.
pub proof fn law_map_finds_what_it_holds<V>(map: StringMap<V>, key: &str, found: Option<&V>, fresh: StringMap<V>)
    requires
        call_ensures(StringMap::<V>::get, (&map, key), found),
        call_ensures(StringMap::<V>::new, (), fresh),
    ensures
        found is Some <==> map@.contains_key(key@),
        found matches Some(value) ==> *value == map@[key@],
        !fresh@.contains_key(key@),
{
}

} // verus!
