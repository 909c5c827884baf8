//! A map from names to values, kept in the order of the names.

use crate::text::{self, before, same};
use vstd::prelude::*;

verus! {

/// A map from names to values: each name once, in the order of the names.
#[derive(PartialEq, Eq, Debug)]
pub struct TextMap<V> {
    entries: Vec<(String, V)>,
}

/// Whether entries stand in strictly rising order of their names.
pub open spec fn rising<V>(entries: Seq<(String, V)>) -> bool {
    forall|i: int, j: int|
        0 <= i < j < entries.len() ==> text::precedes(#[trigger] entries[i].0@, #[trigger] entries[j].0@)
}

/// What entries say: each name with its value.
pub open spec fn map_of<V>(entries: Seq<(String, V)>) -> Map<Seq<char>, V> {
    Map::new(
        |name: Seq<char>| exists|i: int| 0 <= i < entries.len() && #[trigger] entries[i].0@ == name,
        |name: Seq<char>| entries[choose|i: int| 0 <= i < entries.len() && #[trigger] entries[i].0@ == name].1,
    )
}

/// In rising entries the value of a name is that of the one entry that bears it.
pub proof fn lemma_entry<V>(entries: Seq<(String, V)>, i: int)
    requires
        rising(entries),
        0 <= i < entries.len(),
    ensures
        map_of(entries).contains_key(entries[i].0@),
        map_of(entries)[entries[i].0@] == entries[i].1,
{
    let name = entries[i].0@;
    let k = choose|k: int| 0 <= k < entries.len() && #[trigger] entries[k].0@ == name;
    text::lemma_precedes_irreflexive(name);
    if k < i {
        assert(text::precedes(entries[k].0@, entries[i].0@));
    } else if i < k {
        assert(text::precedes(entries[i].0@, entries[k].0@));
    }
}

/// Rising entries hold as many names as there are entries.
pub proof fn lemma_count<V>(entries: Seq<(String, V)>)
    requires
        rising(entries),
    ensures
        map_of(entries).dom().finite(),
        map_of(entries).dom().len() == entries.len(),
    decreases entries.len(),
{
    if entries.len() == 0 {
        assert(map_of(entries).dom() =~= Set::<Seq<char>>::empty());
    } else {
        let front = entries.drop_last();
        let name = entries.last().0@;
        lemma_count(front);
        assert forall|key: Seq<char>| map_of(entries).dom().contains(key) implies map_of(front).dom().insert(
            name,
        ).contains(key) by {
            let i = choose|i: int| 0 <= i < entries.len() && #[trigger] entries[i].0@ == key;
            if i < front.len() {
                assert(front[i].0@ == key);
            }
        }
        assert forall|key: Seq<char>| map_of(front).dom().insert(name).contains(key) implies map_of(
            entries,
        ).dom().contains(key) by {
            if key == name {
                assert(entries[entries.len() - 1].0@ == key);
            } else {
                let i = choose|i: int| 0 <= i < front.len() && #[trigger] front[i].0@ == key;
                assert(entries[i].0@ == key);
            }
        }
        assert(map_of(entries).dom() =~= map_of(front).dom().insert(name));
        if map_of(front).dom().contains(name) {
            let i = choose|i: int| 0 <= i < front.len() && #[trigger] front[i].0@ == name;
            assert(text::precedes(entries[i].0@, entries[entries.len() - 1].0@));
            text::lemma_precedes_irreflexive(name);
        }
    }
}

/// Entries that gained one name with its value, and kept all others, say so.
proof fn lemma_insert<V>(was: Seq<(String, V)>, now: Seq<(String, V)>, at: int, name: Seq<char>)
    requires
        rising(was),
        rising(now),
        0 <= at < now.len(),
        now[at].0@ == name,
        now == was.update(at, now[at]) && at < was.len() && was[at].0@ == name || now == was.insert(at, now[at]) && at
            <= was.len(),
    ensures
        map_of(now) == map_of(was).insert(name, now[at].1),
{
    let a = map_of(now);
    let b = map_of(was).insert(name, now[at].1);
    lemma_entry(now, at);
    assert forall|key: Seq<char>| a.contains_key(key) == b.contains_key(key) by {
        if a.contains_key(key) && key != name {
            let i = choose|i: int| 0 <= i < now.len() && #[trigger] now[i].0@ == key;
            let k = if i < at || now.len() == was.len() {
                i
            } else {
                i - 1
            };
            assert(was[k].0@ == key);
        }
        if map_of(was).contains_key(key) {
            let k = choose|k: int| 0 <= k < was.len() && #[trigger] was[k].0@ == key;
            let i = if k < at || now.len() == was.len() {
                k
            } else {
                k + 1
            };
            assert(now[i].0@ == key);
        }
    }
    assert forall|key: Seq<char>| a.contains_key(key) && key != name implies a[key] == b[key] by {
        let i = choose|i: int| 0 <= i < now.len() && #[trigger] now[i].0@ == key;
        let k = if i < at || now.len() == was.len() {
            i
        } else {
            i - 1
        };
        assert(was[k].0@ == key);
        lemma_entry(now, i);
        lemma_entry(was, k);
    }
    assert(a =~= b);
}

/// Entries that lost one name, and kept all others, say so.
proof fn lemma_remove<V>(was: Seq<(String, V)>, now: Seq<(String, V)>, at: int)
    requires
        rising(was),
        0 <= at < was.len(),
        now == was.remove(at),
    ensures
        rising(now),
        map_of(now) == map_of(was).remove(was[at].0@),
{
    let name = was[at].0@;
    let a = map_of(now);
    let b = map_of(was).remove(name);
    assert forall|key: Seq<char>| a.contains_key(key) == b.contains_key(key) by {
        if a.contains_key(key) {
            let i = choose|i: int| 0 <= i < now.len() && #[trigger] now[i].0@ == key;
            let k = if i < at {
                i
            } else {
                i + 1
            };
            assert(was[k].0@ == key);
            text::lemma_precedes_irreflexive(name);
            if k < at {
                assert(text::precedes(was[k].0@, was[at].0@));
            } else {
                assert(text::precedes(was[at].0@, was[k].0@));
            }
        }
        if b.contains_key(key) {
            let k = choose|k: int| 0 <= k < was.len() && #[trigger] was[k].0@ == key;
            let i = if k < at {
                k
            } else {
                k - 1
            };
            assert(now[i].0@ == key);
        }
    }
    assert forall|key: Seq<char>| a.contains_key(key) implies a[key] == b[key] by {
        let i = choose|i: int| 0 <= i < now.len() && #[trigger] now[i].0@ == key;
        let k = if i < at {
            i
        } else {
            i + 1
        };
        assert(was[k].0@ == key);
        lemma_entry(now, i);
        lemma_entry(was, k);
    }
    assert(a =~= b);
}

impl<V> View for TextMap<V> {
    type V = Map<Seq<char>, V>;

    closed spec fn view(&self) -> Map<Seq<char>, V> {
        map_of(self.entries@)
    }
}

impl<V> TextMap<V> {
    #[verifier::type_invariant]
    spec fn ordered(self) -> bool {
        rising(self.entries@)
    }

    /// The entries, in the order of their names.
    pub closed spec fn listing(self) -> Seq<(String, V)> {
        self.entries@
    }

    /// An empty map.
    pub fn new() -> (r: Self)
        ensures
            r@ == Map::<Seq<char>, V>::empty(),
            r.listing() == Seq::<(String, V)>::empty(),
    {
        let r = TextMap { entries: Vec::new() };
        assert(r@ =~= Map::<Seq<char>, V>::empty());
        r
    }

    /// The entries: each name once, in the order of the names.
    pub fn entries(&self) -> (r: &Vec<(String, V)>)
        ensures
            r@ == self.listing(),
            rising(r@),
            self@ == map_of(r@),
    {
        proof {
            use_type_invariant(self);
        }
        &self.entries
    }

    /// How many names the map holds.
    pub fn len(&self) -> (r: usize)
        ensures
            self@.dom().finite(),
            r == self@.dom().len(),
            r == self.listing().len(),
    {
        proof {
            use_type_invariant(self);
            lemma_count(self.entries@);
        }
        self.entries.len()
    }

    /// Whether the map holds no name.
    pub fn is_empty(&self) -> (r: bool)
        ensures
            r == (self@ == Map::<Seq<char>, V>::empty()),
    {
        if self.entries.len() == 0 {
            assert(self@ =~= Map::<Seq<char>, V>::empty());
            true
        } else {
            assert(self.entries@[0].0@ == self.entries@[0].0@);
            assert(self@.contains_key(self.entries@[0].0@));
            false
        }
    }

    /// The value of a name, where it has one.
    pub fn get(&self, name: &str) -> (r: Option<&V>)
        ensures
            match r {
                Some(value) => self@.contains_key(name@) && self@[name@] == *value,
                None => !self@.contains_key(name@),
            },
    {
        proof {
            use_type_invariant(self);
        }
        let mut i: usize = 0;
        while i < self.entries.len()
            invariant
                rising(self.entries@),
                i <= self.entries@.len(),
                forall|j: int| 0 <= j < i ==> #[trigger] self.entries@[j].0@ != name@,
            decreases self.entries@.len() - i,
        {
            if same(self.entries[i].0.as_str(), name) {
                proof {
                    lemma_entry(self.entries@, i as int);
                }
                return Some(&self.entries[i].1);
            }
            i = i + 1;
        }
        None
    }

    /// Whether the map holds a name.
    pub fn contains(&self, name: &str) -> (r: bool)
        ensures
            r == self@.contains_key(name@),
    {
        self.get(name).is_some()
    }

    /// Give a name a value, in place of the one it had.
    pub fn insert(&mut self, name: String, value: V)
        ensures
            final(self)@ == old(self)@.insert(name@, value),
    {
        proof {
            use_type_invariant(&*self);
        }
        let ghost was = self.entries@;
        let mut at: usize = 0;
        while at < self.entries.len() && before(self.entries[at].0.as_str(), name.as_str())
            invariant
                self.entries@ == was,
                rising(was),
                at <= was.len(),
                forall|j: int| 0 <= j < at ==> text::precedes(#[trigger] was[j].0@, name@),
            decreases was.len() - at,
        {
            at = at + 1;
        }
        let mut entries: Vec<(String, V)> = Vec::new();
        std::mem::swap(&mut entries, &mut self.entries);
        if at < entries.len() && same(entries[at].0.as_str(), name.as_str()) {
            let ghost fresh = was.update(at as int, (name, value));
            entries.set(at, (name, value));
            proof {
                assert(rising(fresh));
                lemma_insert(was, fresh, at as int, name@);
            }
        } else {
            proof {
                text::lemma_precedes_irreflexive(name@);
                if at < was.len() {
                    text::lemma_precedes_total(was[at as int].0@, name@);
                    assert forall|j: int| at <= j < was.len() implies text::precedes(name@, #[trigger] was[j].0@) by {
                        if at < j {
                            text::lemma_precedes_transitive(name@, was[at as int].0@, was[j].0@);
                        }
                    }
                }
            }
            let ghost fresh = was.insert(at as int, (name, value));
            entries.insert(at, (name, value));
            proof {
                assert(rising(fresh));
                lemma_insert(was, fresh, at as int, name@);
            }
        }
        self.entries = entries;
    }

    /// Take a name and its value out of the map, where it holds it.
    pub fn remove(&mut self, name: &str) -> (r: Option<V>)
        ensures
            final(self)@ == old(self)@.remove(name@),
            match r {
                Some(value) => old(self)@.contains_key(name@) && old(self)@[name@] == value,
                None => !old(self)@.contains_key(name@),
            },
    {
        proof {
            use_type_invariant(&*self);
        }
        let ghost was = self.entries@;
        let mut at: usize = 0;
        while at < self.entries.len()
            invariant
                self.entries@ == was,
                rising(was),
                self@ == map_of(was),
                old(self)@ == map_of(was),
                at <= was.len(),
                forall|j: int| 0 <= j < at ==> #[trigger] was[j].0@ != name@,
            decreases was.len() - at,
        {
            if same(self.entries[at].0.as_str(), name) {
                let mut entries: Vec<(String, V)> = Vec::new();
                std::mem::swap(&mut entries, &mut self.entries);
                let (_, value) = entries.remove(at);
                proof {
                    lemma_entry(was, at as int);
                    lemma_remove(was, entries@, at as int);
                }
                self.entries = entries;
                return Some(value);
            }
            at = at + 1;
        }
        assert(self@.remove(name@) =~= self@);
        None
    }
}

/// Whether texts are exactly those of a list, each once, in order.
pub open spec fn in_order_of(sorted: Seq<Seq<char>>, list: Seq<Seq<char>>) -> bool {
    &&& forall|i: int, j: int| 0 <= i < j < sorted.len() ==> text::precedes(#[trigger] sorted[i], #[trigger] sorted[j])
    &&& forall|s: Seq<char>| #[trigger] sorted.contains(s) <==> list.contains(s)
}

/// The texts of a list, each once, in order.
pub fn in_order(list: &Vec<String>) -> (r: Vec<String>)
    ensures
        in_order_of(text::views(r@), text::views(list@)),
{
    let ghost all = text::views(list@);
    let mut set: TextMap<bool> = TextMap::new();
    let mut i: usize = 0;
    while i < list.len()
        invariant
            i <= list@.len(),
            all == text::views(list@),
            forall|s: Seq<char>| #[trigger] set@.contains_key(s) <==> all.take(i as int).contains(s),
        decreases list@.len() - i,
    {
        let ghost was = set@;
        set.insert(list[i].clone(), true);
        proof {
            let before = all.take(i as int);
            let upto = all.take(i + 1);
            assert forall|s: Seq<char>| #[trigger] set@.contains_key(s) <==> upto.contains(s) by {
                if before.contains(s) {
                    let k = choose|k: int| 0 <= k < before.len() && before[k] == s;
                    assert(upto[k] == s);
                }
                if upto.contains(s) {
                    let k = choose|k: int| 0 <= k < upto.len() && upto[k] == s;
                    if k < i {
                        assert(before[k] == s);
                    }
                }
                if s == all[i as int] {
                    assert(upto[i as int] == s);
                }
            }
        }
        i = i + 1;
    }
    assert(all.take(all.len() as int) =~= all);
    let entries = set.entries();
    let mut r: Vec<String> = Vec::new();
    let mut k: usize = 0;
    while k < entries.len()
        invariant
            k <= entries@.len(),
            r@.len() == k,
            forall|m: int| 0 <= m < k ==> (#[trigger] r@[m])@ == entries@[m].0@,
        decreases entries@.len() - k,
    {
        r.push(entries[k].0.clone());
        k = k + 1;
    }
    proof {
        let sorted = text::views(r@);
        assert forall|s: Seq<char>| #[trigger] sorted.contains(s) <==> all.contains(s) by {
            if sorted.contains(s) {
                let m = choose|m: int| 0 <= m < sorted.len() && sorted[m] == s;
                lemma_entry(entries@, m);
            }
            if all.contains(s) {
                assert(set@.contains_key(s));
                let m = choose|m: int| 0 <= m < entries@.len() && #[trigger] entries@[m].0@ == s;
                assert(sorted[m] == s);
            }
        }
        assert forall|i: int, j: int| 0 <= i < j < sorted.len() implies text::precedes(
            #[trigger] sorted[i],
            #[trigger] sorted[j],
        ) by {
            assert(text::precedes(entries@[i].0@, entries@[j].0@));
        }
    }
    r
}

} // verus!
