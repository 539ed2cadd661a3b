//! Vectors used as sets and maps.

use crate::text;
use crate::types::Ident;
use vstd::prelude::*;

verus! {

/// Whether `list` holds `item`.
pub fn contains<T: Ident>(list: &Vec<T>, item: T) -> (found: bool)
    ensures
        found == list@.contains(item),
{
    let mut i: usize = 0;
    while i < list.len()
        invariant
            i <= list.len(),
            forall|j: int| 0 <= j < i ==> list@[j] != item,
        decreases list.len() - i,
    {
        if list[i].same(&item) {
            return true;
        }
        i = i + 1;
    }
    false
}

/// Whether two lists are equal.
pub fn same_list<T: Ident>(a: &Vec<T>, b: &Vec<T>) -> (equal: bool)
    ensures
        equal == (a@ == b@),
{
    if a.len() != b.len() {
        return false;
    }
    let mut i: usize = 0;
    while i < a.len()
        invariant
            i <= a.len() == b.len(),
            forall|j: int| 0 <= j < i ==> a@[j] == b@[j],
        decreases a.len() - i,
    {
        if !a[i].same(&b[i]) {
            assert(a@[i as int] != b@[i as int]);
            return false;
        }
        i = i + 1;
    }
    assert(a@ =~= b@);
    true
}

/// Whether `list` holds a string with the text of `item`.
pub fn contains_text(list: &Vec<String>, item: &str) -> (found: bool)
    ensures
        found == text::texts(list@).contains(item@),
{
    let mut i: usize = 0;
    while i < list.len()
        invariant
            i <= list.len(),
            forall|j: int| 0 <= j < i ==> text::texts(list@)[j] != item@,
        decreases list.len() - i,
    {
        if text::same(list[i].as_str(), item) {
            assert(text::texts(list@)[i as int] == item@);
            return true;
        }
        i = i + 1;
    }
    false
}

/// A set of texts, in the order in which they were first added.
#[derive(Debug)]
pub struct TextSet {
    pub items: Vec<String>,
}

impl View for TextSet {
    type V = Set<Seq<char>>;

    open spec fn view(&self) -> Set<Seq<char>> {
        text::texts(self.items@).to_set()
    }
}

impl TextSet {
    /// No text is held twice.
    pub open spec fn wf(self) -> bool {
        text::texts(self.items@).no_duplicates()
    }

    pub fn new() -> (set: TextSet)
        ensures
            set.wf(),
            set@ == Set::<Seq<char>>::empty(),
            set.items@.len() == 0,
    {
        let set = TextSet { items: Vec::new() };
        assert(set@ =~= Set::<Seq<char>>::empty());
        set
    }

    pub fn contains(&self, item: &str) -> (found: bool)
        ensures
            found == self@.contains(item@),
    {
        contains_text(&self.items, item)
    }

    /// Adds a text; one that is already held stays where it is.
    pub fn insert(&mut self, item: &str)
        requires
            old(self).wf(),
        ensures
            final(self).wf(),
            final(self)@ == old(self)@.insert(item@),
    {
        let ghost before = text::texts(self.items@);
        if self.contains(item) {
            assert(self@ =~= self@.insert(item@));
        } else {
            self.items.push(item.to_owned());
            let ghost after = text::texts(self.items@);
            proof {
                assert(after =~= before.push(item@));
                before.lemma_push_to_set_commute(item@);
            }
        }
    }
}

/// A map from texts to plain values, in the order of first insertion.
#[derive(Debug)]
pub struct TextMap<V> {
    pub entries: Vec<(String, V)>,
}

/// The keys of a list of entries.
pub open spec fn keys<V>(entries: Seq<(String, V)>) -> Seq<Seq<char>> {
    entries.map_values(|e: (String, V)| e.0@)
}

/// The map that a list of entries stands for; the first entry of a key counts.
pub open spec fn entries_map<V>(entries: Seq<(String, V)>) -> Map<Seq<char>, V> {
    Map::new(
        |k: Seq<char>| keys(entries).contains(k),
        |k: Seq<char>| entries[keys(entries).index_of(k)].1,
    )
}

/// A pushed entry with a new key adds itself to the map.
pub proof fn pushed_entry<V>(entries: Seq<(String, V)>, entry: (String, V))
    requires
        keys(entries).no_duplicates(),
        !keys(entries).contains(entry.0@),
    ensures
        keys(entries.push(entry)) == keys(entries).push(entry.0@),
        keys(entries.push(entry)).no_duplicates(),
        entries_map(entries.push(entry)) == entries_map(entries).insert(entry.0@, entry.1),
{
    let before = keys(entries);
    let after = keys(entries.push(entry));
    let map = entries_map(entries).insert(entry.0@, entry.1);
    assert(after =~= before.push(entry.0@));
    assert(after[before.len() as int] == entry.0@);
    assert forall|k: Seq<char>| #[trigger] after.contains(k) implies entries_map(
        entries.push(entry),
    )[k] == map[k] && (k == entry.0@ || before.contains(k)) by {
        let at = after.index_of(k);
        assert(after[at] == k);
        if k != entry.0@ {
            assert(before[at] == k);
            assert(before.index_of(k) == at);
        }
    }
    assert forall|k: Seq<char>| #[trigger] before.contains(k) implies after.contains(k) by {
        let at = before.index_of(k);
        assert(after[at] == k);
    }
    assert(entries_map(entries.push(entry)) =~= map);
}

/// Entry `i` of a list without repeated keys is what the map holds for its key.
pub proof fn held_entry<V>(entries: Seq<(String, V)>, i: int)
    requires
        keys(entries).no_duplicates(),
        0 <= i < entries.len(),
    ensures
        entries_map(entries).dom().contains(entries[i].0@),
        entries_map(entries)[entries[i].0@] == entries[i].1,
{
    let ks = keys(entries);
    assert(ks[i] == entries[i].0@);
    assert(ks.contains(entries[i].0@));
    assert(ks.index_of(entries[i].0@) == i);
}

/// Inserting an entry with a new key anywhere adds it to the map.
proof fn inserted_entry<V>(entries: Seq<(String, V)>, at: int, entry: (String, V))
    requires
        keys(entries).no_duplicates(),
        !keys(entries).contains(entry.0@),
        0 <= at <= entries.len(),
    ensures
        keys(entries.insert(at, entry)) == keys(entries).insert(at, entry.0@),
        keys(entries.insert(at, entry)).no_duplicates(),
        entries_map(entries.insert(at, entry)) == entries_map(entries).insert(entry.0@, entry.1),
{
    let before = keys(entries);
    let grown = entries.insert(at, entry);
    let after = keys(grown);
    let map = entries_map(entries).insert(entry.0@, entry.1);
    assert(after =~= before.insert(at, entry.0@));
    assert forall|i: int, j: int| 0 <= i < j < after.len() implies after[i] != after[j] by {
        let i0 = if i < at {
            i
        } else {
            i - 1
        };
        let j0 = if j < at {
            j
        } else {
            j - 1
        };
        if i != at && j != at {
            assert(after[i] == before[i0] && after[j] == before[j0]);
        } else if i == at {
            assert(after[j] == before[j0]);
            assert(before.contains(after[j]));
        } else {
            assert(after[i] == before[i0]);
            assert(before.contains(after[i]));
        }
    }
    assert forall|k: Seq<char>| #[trigger] after.contains(k) implies entries_map(grown)[k] == map[k]
        && (k == entry.0@ || before.contains(k)) by {
        let g = after.index_of(k);
        assert(after[g] == k);
        held_entry(grown, g);
        if g != at {
            let b = if g < at {
                g
            } else {
                g - 1
            };
            assert(before[b] == k);
            assert(grown[g] == entries[b]);
            held_entry(entries, b);
        }
    }
    assert forall|k: Seq<char>| before.contains(k) || k == entry.0@ implies #[trigger] after.contains(
        k,
    ) by {
        if k == entry.0@ {
            assert(after[at] == k);
        } else {
            let b = before.index_of(k);
            let g = if b < at {
                b
            } else {
                b + 1
            };
            assert(after[g] == k);
        }
    }
    assert(entries_map(grown) =~= map);
}

/// Removing an entry takes its key out of the map.
proof fn removed_entry<V>(entries: Seq<(String, V)>, at: int)
    requires
        keys(entries).no_duplicates(),
        0 <= at < entries.len(),
    ensures
        keys(entries.remove(at)).no_duplicates(),
        entries_map(entries.remove(at)) == entries_map(entries).remove(entries[at].0@),
{
    let before = keys(entries);
    let left = entries.remove(at);
    let after = keys(left);
    let gone = entries[at].0@;
    assert(before[at] == gone);
    assert forall|i: int| 0 <= i < after.len() implies #[trigger] after[i] == before[if i < at {
        i
    } else {
        i + 1
    }] by {}
    assert forall|k: Seq<char>| #[trigger] after.contains(k) implies before.contains(k) && k != gone
        && entries_map(left)[k] == entries_map(entries)[k] by {
        let g = after.index_of(k);
        let b = if g < at {
            g
        } else {
            g + 1
        };
        assert(after[g] == k);
        assert(before[b] == k);
        held_entry(left, g);
        held_entry(entries, b);
        assert(left[g] == entries[b]);
    }
    assert forall|k: Seq<char>| before.contains(k) && k != gone implies #[trigger] after.contains(
        k,
    ) by {
        let b = before.index_of(k);
        let g = if b < at {
            b
        } else {
            b - 1
        };
        assert(after[g] == k);
    }
    assert(entries_map(left) =~= entries_map(entries).remove(gone));
}

impl<V: Copy> View for TextMap<V> {
    type V = Map<Seq<char>, V>;

    open spec fn view(&self) -> Map<Seq<char>, V> {
        entries_map(self.entries@)
    }
}

impl<V: Copy> TextMap<V> {
    /// No key is held twice.
    pub open spec fn wf(self) -> bool {
        keys(self.entries@).no_duplicates()
    }

    pub fn new() -> (map: TextMap<V>)
        ensures
            map.wf(),
            map@ == Map::<Seq<char>, V>::empty(),
            map.entries@.len() == 0,
    {
        let map = TextMap { entries: Vec::new() };
        assert(map@ =~= Map::<Seq<char>, V>::empty());
        map
    }

    pub fn get(&self, key: &str) -> (found: Option<V>)
        requires
            self.wf(),
        ensures
            found == (if self@.dom().contains(key@) {
                Some(self@[key@])
            } else {
                None::<V>
            }),
    {
        let mut i: usize = 0;
        while i < self.entries.len()
            invariant
                i <= self.entries.len(),
                forall|j: int| 0 <= j < i ==> keys(self.entries@)[j] != key@,
                self.wf(),
            decreases self.entries.len() - i,
        {
            if text::same(self.entries[i].0.as_str(), key) {
                let ghost ks = keys(self.entries@);
                assert(ks[i as int] == key@);
                assert(ks.index_of(key@) == i);
                return Some(self.entries[i].1);
            }
            i = i + 1;
        }
        None
    }

    /// Sets the value of a key.
    pub fn insert(&mut self, key: &str, value: V)
        requires
            old(self).wf(),
        ensures
            final(self).wf(),
            final(self)@ == old(self)@.insert(key@, value),
    {
        let ghost before = keys(self.entries@);
        let ghost map = self@;
        let mut i: usize = 0;
        while i < self.entries.len()
            invariant
                i <= self.entries.len(),
                forall|j: int| 0 <= j < i ==> keys(self.entries@)[j] != key@,
                self.wf(),
                self@ == map,
                map == old(self)@,
                before == keys(self.entries@),
            decreases self.entries.len() - i,
        {
            if text::same(self.entries[i].0.as_str(), key) {
                let entry: (String, V) = (key.to_owned(), value);
                let ghost held = self.entries@;
                self.entries.set(i, entry);
                proof {
                    assert(keys(self.entries@) =~= before);
                    assert(before[i as int] == key@);
                    assert forall|k: Seq<char>| #[trigger] before.contains(k) implies self@[k] == map.insert(
                        key@,
                        value,
                    )[k] by {
                        let at = before.index_of(k);
                        assert(before[at] == k);
                    }
                    assert(self@ =~= map.insert(key@, value));
                }
                return;
            }
            i = i + 1;
        }
        let ghost held = self.entries@;
        self.entries.push((key.to_owned(), value));
        proof {
            pushed_entry(held, self.entries@.last());
        }
    }

    /// Adds a new key where code point order puts it.
    pub fn insert_ordered(&mut self, key: &str, value: V)
        requires
            old(self).wf(),
            text::increasing(keys(old(self).entries@)),
            !old(self)@.dom().contains(key@),
        ensures
            final(self).wf(),
            text::increasing(keys(final(self).entries@)),
            final(self)@ == old(self)@.insert(key@, value),
    {
        let ghost held = self.entries@;
        let ghost ks = keys(held);
        let mut at: usize = 0;
        while at < self.entries.len() && text::is_before(self.entries[at].0.as_str(), key)
            invariant
                at <= self.entries.len(),
                self.entries@ == held,
                ks == keys(held),
                forall|i: int| 0 <= i < at ==> text::before(#[trigger] ks[i], key@),
            decreases self.entries.len() - at,
        {
            assert(ks[at as int] == self.entries@[at as int].0@);
            at = at + 1;
        }
        self.entries.insert(at, (key.to_owned(), value));
        proof {
            inserted_entry(held, at as int, self.entries@[at as int]);
            let grown = keys(self.entries@);
            assert forall|i: int, j: int| 0 <= i < j < grown.len() implies text::before(
                #[trigger] grown[i],
                #[trigger] grown[j],
            ) by {
                if i < at && j < at {
                    assert(grown[i] == ks[i] && grown[j] == ks[j]);
                } else if i < at && j == at {
                    assert(grown[i] == ks[i]);
                } else if i < at {
                    assert(grown[i] == ks[i] && grown[j] == ks[j - 1]);
                } else if i > at {
                    assert(grown[i] == ks[i - 1] && grown[j] == ks[j - 1]);
                } else {
                    assert(grown[j] == ks[j - 1]);
                    assert(ks.contains(ks[at as int]));
                    text::before_is_a_strict_order(key@, ks[at as int], ks[j - 1]);
                    assert(text::before(key@, ks[at as int]));
                }
            }
        }
    }

    /// Removes a key.
    pub fn remove(&mut self, key: &str)
        requires
            old(self).wf(),
        ensures
            final(self).wf(),
            final(self)@ == old(self)@.remove(key@),
    {
        let ghost held = self.entries@;
        let ghost ks = keys(held);
        let mut i: usize = 0;
        while i < self.entries.len()
            invariant
                i <= self.entries.len(),
                self.entries@ == held,
                held == old(self).entries@,
                self.wf(),
                ks == keys(held),
                forall|j: int| 0 <= j < i ==> ks[j] != key@,
            decreases self.entries.len() - i,
        {
            assert(ks[i as int] == held[i as int].0@);
            if text::same(self.entries[i].0.as_str(), key) {
                self.entries.remove(i);
                proof {
                    removed_entry(held, i as int);
                }
                return;
            }
            i = i + 1;
        }
        assert(self@ =~= self@.remove(key@));
    }
}

/// Whether no item is listed twice.
pub fn all_distinct<T: Ident>(list: &Vec<T>) -> (distinct: bool)
    ensures
        distinct == list@.no_duplicates(),
{
    let mut i: usize = 0;
    while i < list.len()
        invariant
            i <= list.len(),
            forall|a: int, b: int| 0 <= a < b < i ==> list@[a] != list@[b],
        decreases list.len() - i,
    {
        let mut j: usize = 0;
        while j < i
            invariant
                j <= i < list.len(),
                forall|a: int| 0 <= a < j ==> list@[a] != list@[i as int],
            decreases i - j,
        {
            if list[j].same(&list[i]) {
                return false;
            }
            j = j + 1;
        }
        i = i + 1;
    }
    true
}

/// Whether every item of `part` is in `whole`.
pub fn is_subset<T: Ident>(part: &Vec<T>, whole: &Vec<T>) -> (subset: bool)
    ensures
        subset == part@.to_set().subset_of(whole@.to_set()),
{
    let mut i: usize = 0;
    while i < part.len()
        invariant
            i <= part.len(),
            forall|a: int| 0 <= a < i ==> whole@.contains(#[trigger] part@[a]),
        decreases part.len() - i,
    {
        if !contains(whole, part[i]) {
            assert(part@.to_set().contains(part@[i as int]));
            assert(!whole@.to_set().contains(part@[i as int]));
            return false;
        }
        i = i + 1;
    }
    assert forall|x: T| part@.to_set().contains(x) implies whole@.to_set().contains(x) by {
        let at = part@.index_of(x);
        assert(part@[at] == x);
    }
    true
}

/// Whether two lists have the same items.
pub fn same_members<T: Ident>(a: &Vec<T>, b: &Vec<T>) -> (same: bool)
    ensures
        same == (a@.to_set() == b@.to_set()),
{
    let same: bool = is_subset(a, b) && is_subset(b, a);
    proof {
        if same {
            assert(a@.to_set() =~= b@.to_set());
        }
    }
    same
}

/// Whether two lists have no item in common.
pub fn is_disjoint<T: Ident>(a: &Vec<T>, b: &Vec<T>) -> (disjoint: bool)
    ensures
        disjoint == a@.to_set().disjoint(b@.to_set()),
{
    let mut i: usize = 0;
    while i < a.len()
        invariant
            i <= a.len(),
            forall|k: int| 0 <= k < i ==> !b@.contains(#[trigger] a@[k]),
        decreases a.len() - i,
    {
        if contains(b, a[i]) {
            assert(a@.to_set().contains(a@[i as int]));
            assert(b@.to_set().contains(a@[i as int]));
            return false;
        }
        i = i + 1;
    }
    assert forall|x: T| a@.to_set().contains(x) implies !b@.to_set().contains(x) by {
        let at = a@.index_of(x);
        assert(a@[at] == x);
    }
    true
}

/// The distinct texts of a list, in code point order.
pub fn sorted_distinct(list: &Vec<String>) -> (sorted: Vec<String>)
    ensures
        text::increasing(text::texts(sorted@)),
        text::texts(sorted@).to_set() == text::texts(list@).to_set(),
{
    let ghost all = text::texts(list@);
    let mut map: TextMap<bool> = TextMap::new();
    let mut i: usize = 0;
    proof {
        assert(map@.dom() =~= all.take(0).to_set());
    }
    while i < list.len()
        invariant
            i <= list.len(),
            all == text::texts(list@),
            map.wf(),
            text::increasing(keys(map.entries@)),
            map@.dom() == all.take(i as int).to_set(),
        decreases list.len() - i,
    {
        let ghost head = all.take(i as int);
        proof {
            assert(all.take(i + 1) =~= head.push(list@[i as int]@));
            head.lemma_push_to_set_commute(list@[i as int]@);
        }
        if map.get(list[i].as_str()).is_none() {
            map.insert_ordered(list[i].as_str(), true);
        }
        assert(map@.dom() =~= all.take(i + 1).to_set());
        i = i + 1;
    }
    assert(all.take(i as int) =~= all);
    let mut sorted: Vec<String> = Vec::new();
    let mut k: usize = 0;
    let ghost ks = keys(map.entries@);
    while k < map.entries.len()
        invariant
            k <= map.entries.len(),
            ks == keys(map.entries@),
            text::texts(sorted@) == ks.take(k as int),
        decreases map.entries.len() - k,
    {
        let ghost before = text::texts(sorted@);
        sorted.push(map.entries[k].0.clone());
        assert(ks[k as int] == map.entries@[k as int].0@);
        assert(text::texts(sorted@) =~= before.push(ks[k as int]));
        assert(ks.take(k + 1) =~= ks.take(k as int).push(ks[k as int]));
        k = k + 1;
    }
    proof {
        assert(ks.take(k as int) =~= ks);
        assert(map@.dom() =~= ks.to_set());
    }
    sorted
}

/// The members of a list once each, in code point order.
pub open spec fn sorted_set(list: Seq<Seq<char>>) -> Seq<Seq<char>> {
    choose|sorted: Seq<Seq<char>>| #[trigger]
        text::increasing(sorted) && sorted.to_set() == list.to_set()
}

/// A sorted list with the members of another is its sorted set.
pub proof fn sorted_set_is(list: Seq<Seq<char>>, sorted: Seq<Seq<char>>)
    requires
        text::increasing(sorted),
        sorted.to_set() == list.to_set(),
    ensures
        sorted_set(list) == sorted,
{
    let chosen = sorted_set(list);
    assert(text::increasing(chosen) && chosen.to_set() == list.to_set());
    assert forall|x: Seq<char>| #[trigger] chosen.contains(x) <==> sorted.contains(x) by {
        assert(chosen.to_set().contains(x) <==> sorted.to_set().contains(x));
    }
    text::increasing_is_decided(chosen, sorted);
}

/// The items of both lists.
pub fn joined<T: Ident>(a: &Vec<T>, b: &Vec<T>) -> (both: Vec<T>)
    ensures
        both@ == a@ + b@,
        both@.to_set() == a@.to_set().union(b@.to_set()),
{
    let mut both: Vec<T> = Vec::new();
    let mut i: usize = 0;
    while i < a.len()
        invariant
            i <= a.len(),
            both@ == a@.take(i as int),
        decreases a.len() - i,
    {
        both.push(a[i]);
        assert(a@.take(i + 1) =~= a@.take(i as int).push(a@[i as int]));
        i = i + 1;
    }
    assert(a@.take(i as int) =~= a@);
    let mut k: usize = 0;
    assert(both@ =~= a@ + b@.take(0));
    while k < b.len()
        invariant
            k <= b.len(),
            both@ == a@ + b@.take(k as int),
        decreases b.len() - k,
    {
        both.push(b[k]);
        assert(both@ =~= a@ + b@.take(k + 1));
        k = k + 1;
    }
    assert(b@.take(k as int) =~= b@);
    proof {
        vstd::seq_lib::seq_to_set_distributes_over_add(a@, b@);
        assert(both@.to_set() =~= a@.to_set().union(b@.to_set()));
    }
    both
}

} // verus!
