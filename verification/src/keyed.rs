use vstd::prelude::*;
use vstd::string::*;

use crate::text::{same_text, views};

verus! {

/// A key and the value stored under it.
struct Slot<V> {
    key: String,
    value: V,
}

/// A finite map from strings to values, kept as a list of slots in which
/// no key occurs twice.
pub struct KeyedList<V> {
    slots: Vec<Slot<V>>,
}

/// No two slots share a key.
spec fn keys_distinct<V>(entries: Seq<Slot<V>>) -> bool {
    forall|i: int, j: int|
        0 <= i < entries.len() && 0 <= j < entries.len() && i != j ==> #[trigger] entries[i].key@
            != #[trigger] entries[j].key@
}

/// Some slot has the key.
spec fn has_key<V>(entries: Seq<Slot<V>>, key: Seq<char>) -> bool {
    exists|i: int| 0 <= i < entries.len() && #[trigger] entries[i].key@ == key
}

/// A slot with the key, where there is one.
spec fn index_of<V>(entries: Seq<Slot<V>>, key: Seq<char>) -> int {
    choose|i: int| 0 <= i < entries.len() && #[trigger] entries[i].key@ == key
}

/// The value stored under each key.
spec fn map_of<V>(entries: Seq<Slot<V>>) -> Map<Seq<char>, V> {
    Map::new(
        |key: Seq<char>| has_key(entries, key),
        |key: Seq<char>| entries[index_of(entries, key)].value,
    )
}

/// Slot `i` is what the map says of its key.
proof fn lemma_map_at<V>(entries: Seq<Slot<V>>, i: int)
    requires
        keys_distinct(entries),
        0 <= i < entries.len(),
    ensures
        map_of(entries).contains_key(entries[i].key@),
        map_of(entries)[entries[i].key@] == entries[i].value,
{
    let key = entries[i].key@;
    assert(has_key(entries, key));
    let j = index_of(entries, key);
    assert(entries[j].key@ == key);
}

/// Appending a slot with a new key adds it to the map.
proof fn lemma_map_push<V>(entries: Seq<Slot<V>>, e: Slot<V>)
    requires
        keys_distinct(entries),
        !has_key(entries, e.key@),
    ensures
        keys_distinct(entries.push(e)),
        map_of(entries.push(e)) == map_of(entries).insert(e.key@, e.value),
{
    let grown = entries.push(e);
    assert forall|i: int, j: int|
        0 <= i < grown.len() && 0 <= j < grown.len() && i != j implies #[trigger] grown[i].key@
        != #[trigger] grown[j].key@ by {
        if i == entries.len() {
            assert(entries[j].key@ == grown[j].key@);
        } else if j == entries.len() {
            assert(entries[i].key@ == grown[i].key@);
        } else {
            assert(entries[i] == grown[i] && entries[j] == grown[j]);
        }
    }
    let a = map_of(grown);
    let b = map_of(entries).insert(e.key@, e.value);
    assert forall|k: Seq<char>| a.contains_key(k) <==> b.contains_key(k) by {
        if has_key(grown, k) {
            let i = choose|i: int| 0 <= i < grown.len() && #[trigger] grown[i].key@ == k;
            if i < entries.len() {
                assert(entries[i].key@ == k);
            }
        }
        if has_key(entries, k) {
            let i = choose|i: int| 0 <= i < entries.len() && #[trigger] entries[i].key@ == k;
            assert(grown[i].key@ == k);
        }
        if k == e.key@ {
            assert(grown[entries.len() as int].key@ == k);
        }
    }
    assert forall|k: Seq<char>| a.contains_key(k) implies a[k] == b[k] by {
        let i = choose|i: int| 0 <= i < grown.len() && #[trigger] grown[i].key@ == k;
        lemma_map_at(grown, i);
        if i < entries.len() {
            assert(grown[i] == entries[i]);
            lemma_map_at(entries, i);
        }
    }
    assert(a =~= b);
}

/// Replacing slot `i` by one with the same key replaces its value in the map.
proof fn lemma_map_update<V>(entries: Seq<Slot<V>>, i: int, e: Slot<V>)
    requires
        keys_distinct(entries),
        0 <= i < entries.len(),
        e.key@ == entries[i].key@,
    ensures
        keys_distinct(entries.update(i, e)),
        map_of(entries.update(i, e)) == map_of(entries).insert(e.key@, e.value),
{
    let changed = entries.update(i, e);
    assert forall|p: int, q: int|
        0 <= p < changed.len() && 0 <= q < changed.len() && p != q implies #[trigger] changed[p].key@
        != #[trigger] changed[q].key@ by {
        assert(changed[p].key@ == entries[p].key@);
        assert(changed[q].key@ == entries[q].key@);
    }
    let a = map_of(changed);
    let b = map_of(entries).insert(e.key@, e.value);
    assert forall|k: Seq<char>| a.contains_key(k) <==> b.contains_key(k) by {
        if has_key(changed, k) {
            let j = choose|j: int| 0 <= j < changed.len() && #[trigger] changed[j].key@ == k;
            assert(entries[j].key@ == k);
        }
        if has_key(entries, k) {
            let j = choose|j: int| 0 <= j < entries.len() && #[trigger] entries[j].key@ == k;
            assert(changed[j].key@ == k);
        }
        if k == e.key@ {
            assert(changed[i].key@ == k);
        }
    }
    assert forall|k: Seq<char>| a.contains_key(k) implies a[k] == b[k] by {
        let j = choose|j: int| 0 <= j < changed.len() && #[trigger] changed[j].key@ == k;
        lemma_map_at(changed, j);
        if j != i {
            assert(changed[j] == entries[j]);
            lemma_map_at(entries, j);
        }
    }
    assert(a =~= b);
}

/// Removing slot `i` removes its key from the map.
proof fn lemma_map_remove<V>(entries: Seq<Slot<V>>, i: int)
    requires
        keys_distinct(entries),
        0 <= i < entries.len(),
    ensures
        keys_distinct(entries.remove(i)),
        map_of(entries.remove(i)) == map_of(entries).remove(entries[i].key@),
{
    let shrunk = entries.remove(i);
    let gone = entries[i].key@;
    assert forall|p: int, q: int|
        0 <= p < shrunk.len() && 0 <= q < shrunk.len() && p != q implies #[trigger] shrunk[p].key@
        != #[trigger] shrunk[q].key@ by {
        let p0 = if p < i { p } else { p + 1 };
        let q0 = if q < i { q } else { q + 1 };
        assert(shrunk[p] == entries[p0]);
        assert(shrunk[q] == entries[q0]);
    }
    let a = map_of(shrunk);
    let b = map_of(entries).remove(gone);
    assert forall|k: Seq<char>| a.contains_key(k) <==> b.contains_key(k) by {
        if has_key(shrunk, k) {
            let j = choose|j: int| 0 <= j < shrunk.len() && #[trigger] shrunk[j].key@ == k;
            let j0 = if j < i { j } else { j + 1 };
            assert(shrunk[j] == entries[j0]);
            assert(entries[j0].key@ == k);
        }
        if has_key(entries, k) && k != gone {
            let j = choose|j: int| 0 <= j < entries.len() && #[trigger] entries[j].key@ == k;
            if j < i {
                assert(shrunk[j] == entries[j]);
            } else {
                assert(shrunk[j - 1] == entries[j]);
            }
        }
    }
    assert forall|k: Seq<char>| a.contains_key(k) implies a[k] == b[k] by {
        let j = choose|j: int| 0 <= j < shrunk.len() && #[trigger] shrunk[j].key@ == k;
        let j0 = if j < i { j } else { j + 1 };
        assert(shrunk[j] == entries[j0]);
        lemma_map_at(shrunk, j);
        lemma_map_at(entries, j0);
    }
    assert(a =~= b);
}

/// The first `n` slots give the map with `n` keys, and copies of the slots
/// as pairs insert, one after another, into that same map.
proof fn lemma_map_len<V>(entries: Seq<Slot<V>>)
    requires
        keys_distinct(entries),
    ensures
        map_of(entries).dom().finite(),
        map_of(entries).dom().len() == entries.len(),
        map_of(entries) == map_of_pairs(
            entries.map_values(|s: Slot<V>| (s.key@, s.value)),
        ),
    decreases entries.len(),
{
    if entries.len() == 0 {
        assert(map_of(entries) =~= Map::<Seq<char>, V>::empty());
        assert(entries.map_values(|s: Slot<V>| (s.key@, s.value)) =~= Seq::<(Seq<char>, V)>::empty());
    } else {
        let n = entries.len() - 1;
        let front = entries.drop_last();
        assert(keys_distinct(front)) by {
            assert forall|i: int, j: int|
                0 <= i < front.len() && 0 <= j < front.len() && i != j implies #[trigger] front[i].key@
                != #[trigger] front[j].key@ by {
                assert(front[i] == entries[i] && front[j] == entries[j]);
            }
        }
        lemma_map_len(front);
        assert(!has_key(front, entries[n].key@)) by {
            if has_key(front, entries[n].key@) {
                let j = choose|j: int| 0 <= j < front.len() && #[trigger] front[j].key@ == entries[n].key@;
                assert(front[j] == entries[j]);
            }
        }
        assert(entries =~= front.push(entries[n]));
        lemma_map_push(front, entries[n]);
        assert(entries.map_values(|s: Slot<V>| (s.key@, s.value)).drop_last() =~= front.map_values(
            |s: Slot<V>| (s.key@, s.value),
        ));
        assert(!map_of(front).contains_key(entries[n].key@));
    }
}

/// The map that inserting `pairs` one after another into an empty map gives
/// (so a later pair wins over an earlier one with the same key).
pub open spec fn map_of_pairs<V>(pairs: Seq<(Seq<char>, V)>) -> Map<Seq<char>, V>
    decreases pairs.len(),
{
    if pairs.len() == 0 {
        Map::empty()
    } else {
        map_of_pairs(pairs.drop_last()).insert(pairs.last().0, pairs.last().1)
    }
}

/// Inserting pairs one after another keeps exactly the keys that occur, and
/// each key ends up with the value of its last pair.
pub proof fn lemma_map_of_pairs_last_wins<V>(pairs: Seq<(Seq<char>, V)>, i: int, key: Seq<char>)
    ensures
        map_of_pairs(pairs).contains_key(key) <==> exists|j: int| 0 <= j < pairs.len() && #[trigger] pairs[j].0 == key,
        0 <= i < pairs.len() && (forall|j: int| i < j < pairs.len() ==> #[trigger] pairs[j].0 != pairs[i].0)
            ==> map_of_pairs(pairs)[pairs[i].0] == pairs[i].1,
    decreases pairs.len(),
{
    if pairs.len() > 0 {
        let front = pairs.drop_last();
        let n = pairs.len() - 1;
        lemma_map_of_pairs_last_wins(front, i, key);
        if map_of_pairs(pairs).contains_key(key) && key != pairs[n].0 {
            let j = choose|j: int| 0 <= j < front.len() && #[trigger] front[j].0 == key;
            assert(pairs[j].0 == key);
        }
        if exists|j: int| 0 <= j < pairs.len() && #[trigger] pairs[j].0 == key {
            let j = choose|j: int| 0 <= j < pairs.len() && #[trigger] pairs[j].0 == key;
            if j < n {
                assert(front[j].0 == key);
            }
        }
        if 0 <= i < n && (forall|j: int| i < j < pairs.len() ==> #[trigger] pairs[j].0 != pairs[i].0) {
            assert(pairs[n].0 != pairs[i].0);
            assert(front[i] == pairs[i]);
            assert forall|j: int| i < j < front.len() implies #[trigger] front[j].0 != front[i].0 by {
                assert(front[j] == pairs[j]);
            }
            lemma_map_of_pairs_last_wins(front, i, pairs[i].0);
        }
    }
}

/// The keys and values of string-keyed pairs.
pub open spec fn pair_views<V>(pairs: Seq<(String, V)>) -> Seq<(Seq<char>, V)> {
    pairs.map_values(|p: (String, V)| (p.0@, p.1))
}

impl<V> View for KeyedList<V> {
    type V = Map<Seq<char>, V>;

    closed spec fn view(&self) -> Map<Seq<char>, V> {
        map_of(self.slots@)
    }
}

impl<V> KeyedList<V> {
    #[verifier::type_invariant]
    spec fn well_formed(self) -> bool {
        keys_distinct(self.slots@)
    }

    /// The empty map.
    pub fn new() -> (list: Self)
        ensures
            list@ == Map::<Seq<char>, V>::empty(),
    {
        let list = KeyedList { slots: Vec::new() };
        assert(list@ =~= Map::<Seq<char>, V>::empty());
        list
    }

    fn position(&self, key: &str) -> (found: Option<usize>)
        ensures
            found matches Some(i) ==> i < self.slots@.len() && self.slots@[i as int].key@ == key@,
            found is None ==> !has_key(self.slots@, key@),
    {
        let mut i: usize = 0;
        while i < self.slots.len()
            invariant
                i <= self.slots@.len(),
                forall|j: int| 0 <= j < i ==> #[trigger] self.slots@[j].key@ != key@,
            decreases self.slots.len() - i,
        {
            if same_text(self.slots[i].key.as_str(), key) {
                return Some(i);
            }
            i = i + 1;
        }
        None
    }

    /// Whether a value is stored under `key`.
    pub fn contains_key(&self, key: &str) -> (found: bool)
        ensures
            found == self@.contains_key(key@),
    {
        match self.position(key) {
            Some(_) => true,
            None => false,
        }
    }

    /// The value stored under `key`, if any.
    pub fn get(&self, key: &str) -> (value: Option<&V>)
        ensures
            value is Some == self@.contains_key(key@),
            value matches Some(v) ==> *v == self@[key@],
    {
        proof {
            use_type_invariant(self);
        }
        match self.position(key) {
            Some(i) => {
                proof {
                    lemma_map_at(self.slots@, i as int);
                }
                Some(&self.slots[i].value)
            },
            None => None,
        }
    }

    /// How many keys are stored.
    pub fn len(&self) -> (n: usize)
        ensures
            self@.dom().finite(),
            n == self@.dom().len(),
    {
        proof {
            use_type_invariant(self);
            lemma_map_len(self.slots@);
        }
        self.slots.len()
    }

    /// Stores `value` under `key` and returns the value it replaces, if any.
    pub fn insert(&mut self, key: String, value: V) -> (previous: Option<V>)
        ensures
            final(self)@ == old(self)@.insert(key@, value),
            previous is Some == old(self)@.contains_key(key@),
            previous matches Some(v) ==> v == old(self)@[key@],
    {
        proof {
            use_type_invariant(&*self);
        }
        let found = self.position(key.as_str());
        let mut slots: Vec<Slot<V>> = Vec::new();
        std::mem::swap(&mut slots, &mut self.slots);
        let ghost before = slots@;
        match found {
            Some(i) => {
                proof {
                    lemma_map_at(before, i as int);
                    lemma_map_remove(before, i as int);
                    lemma_map_push(before.remove(i as int), Slot { key, value });
                    assert(map_of(before).remove(key@).insert(key@, value) =~= map_of(
                        before,
                    ).insert(key@, value));
                }
                let old_slot = slots.remove(i);
                slots.push(Slot { key, value });
                self.slots = slots;
                Some(old_slot.value)
            },
            None => {
                proof {
                    lemma_map_push(before, Slot { key, value });
                }
                slots.push(Slot { key, value });
                self.slots = slots;
                None
            },
        }
    }

    /// Removes `key` and returns the value it had, if any.
    pub fn remove(&mut self, key: &str) -> (previous: Option<V>)
        ensures
            final(self)@ == old(self)@.remove(key@),
            previous is Some == old(self)@.contains_key(key@),
            previous matches Some(v) ==> v == old(self)@[key@],
    {
        proof {
            use_type_invariant(&*self);
        }
        match self.position(key) {
            Some(i) => {
                let mut slots: Vec<Slot<V>> = Vec::new();
                std::mem::swap(&mut slots, &mut self.slots);
                let ghost before = slots@;
                proof {
                    lemma_map_at(before, i as int);
                    lemma_map_remove(before, i as int);
                }
                let removed = slots.remove(i);
                self.slots = slots;
                Some(removed.value)
            },
            None => {
                proof {
                    assert(self@.remove(key@) =~= self@);
                }
                None
            },
        }
    }

    /// The stored keys, each once, in no particular order.
    pub fn keys(&self) -> (keys: Vec<String>)
        ensures
            views(keys@).to_set() == self@.dom(),
            keys@.len() == self@.dom().len(),
            forall|i: int, j: int|
                0 <= i < j < keys@.len() ==> #[trigger] keys@[i]@ != #[trigger] keys@[j]@,
    {
        proof {
            use_type_invariant(self);
            lemma_map_len(self.slots@);
        }
        let mut keys: Vec<String> = Vec::new();
        let mut i: usize = 0;
        while i < self.slots.len()
            invariant
                keys_distinct(self.slots@),
                i <= self.slots@.len(),
                keys@.len() == i,
                forall|k: int| 0 <= k < i ==> (#[trigger] keys@[k])@ == self.slots@[k].key@,
            decreases self.slots.len() - i,
        {
            keys.push(self.slots[i].key.clone());
            i = i + 1;
        }
        proof {
            assert forall|k: Seq<char>| views(keys@).contains(k) <==> self@.dom().contains(k) by {
                if views(keys@).contains(k) {
                    let j = choose|j: int| 0 <= j < keys@.len() && views(keys@)[j] == k;
                    assert(self.slots@[j].key@ == k);
                }
                if has_key(self.slots@, k) {
                    let j = choose|j: int|
                        0 <= j < self.slots@.len() && #[trigger] self.slots@[j].key@ == k;
                    assert(views(keys@)[j] == k);
                }
            }
            assert(views(keys@).to_set() =~= self@.dom());
            assert forall|a: int, b: int| 0 <= a < b < keys@.len() implies #[trigger] keys@[a]@
                != #[trigger] keys@[b]@ by {
                assert(keys@[a]@ == self.slots@[a].key@);
            }
        }
        keys
    }
}

impl<V: Copy> KeyedList<V> {
    /// Every key with its value, each key once, in no particular order.
    pub fn pairs(&self) -> (pairs: Vec<(String, V)>)
        ensures
            map_of_pairs(pair_views(pairs@)) == self@,
            pairs@.len() == self@.dom().len(),
            forall|i: int, j: int|
                0 <= i < j < pairs@.len() ==> #[trigger] pairs@[i].0@ != #[trigger] pairs@[j].0@,
    {
        proof {
            use_type_invariant(self);
            lemma_map_len(self.slots@);
        }
        let mut pairs: Vec<(String, V)> = Vec::new();
        let mut i: usize = 0;
        while i < self.slots.len()
            invariant
                keys_distinct(self.slots@),
                i <= self.slots@.len(),
                pairs@.len() == i,
                forall|k: int| 0 <= k < i ==> (#[trigger] pairs@[k]).0@ == self.slots@[k].key@
                    && pairs@[k].1 == self.slots@[k].value,
            decreases self.slots.len() - i,
        {
            pairs.push((self.slots[i].key.clone(), self.slots[i].value));
            i = i + 1;
        }
        proof {
            assert(pair_views(pairs@) =~= self.slots@.map_values(|s: Slot<V>| (s.key@, s.value)));
            assert forall|a: int, b: int| 0 <= a < b < pairs@.len() implies #[trigger] pairs@[a].0@
                != #[trigger] pairs@[b].0@ by {
                assert(pairs@[a].0@ == self.slots@[a].key@);
            }
        }
        pairs
    }
}

} // verus!
