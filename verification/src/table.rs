//! A table of values under textual keys, no key twice.

use crate::text::same_text;
use vstd::prelude::*;

verus! {

/// The map that a list of entries stands for.
pub open spec fn map_of<V>(entries: Seq<(String, V)>) -> Map<Seq<char>, V>
    decreases entries.len(),
{
    if entries.len() == 0 {
        Map::empty()
    } else {
        map_of(entries.drop_last()).insert(entries.last().0@, entries.last().1)
    }
}

/// No two entries have the same key.
pub open spec fn distinct<V>(entries: Seq<(String, V)>) -> bool {
    forall|i: int, j: int|
        0 <= i < j < entries.len() ==> (#[trigger] entries[i]).0@ != (#[trigger] entries[j]).0@
}

/// The part of `m` whose values `p` holds of.
pub open spec fn keep_if<V>(m: Map<Seq<char>, V>, p: spec_fn(V) -> bool) -> Map<Seq<char>, V> {
    Map::new(|key: Seq<char>| m.contains_key(key) && p(m[key]), |key: Seq<char>| m[key])
}

/// The map of a list without repeated keys has the entries of the list and no others.
pub proof fn map_of_entries<V>(entries: Seq<(String, V)>)
    requires
        distinct(entries),
    ensures
        map_of(entries).dom().finite(),
        map_of(entries).len() == entries.len(),
        forall|i: int|
            0 <= i < entries.len() ==> map_of(entries).contains_key((#[trigger] entries[i]).0@)
                && map_of(entries)[entries[i].0@] == entries[i].1,
        forall|key: Seq<char>| #[trigger]
            map_of(entries).contains_key(key) ==> exists|i: int|
                0 <= i < entries.len() && (#[trigger] entries[i]).0@ == key,
    decreases entries.len(),
{
    if entries.len() > 0 {
        let rest = entries.drop_last();
        assert forall|i: int, j: int| 0 <= i < j < rest.len() implies (#[trigger] rest[i]).0@
            != (#[trigger] rest[j]).0@ by {
            assert(rest[i] == entries[i] && rest[j] == entries[j]);
        }
        map_of_entries(rest);
        let last = entries.last().0@;
        assert(!map_of(rest).contains_key(last)) by {
            if map_of(rest).contains_key(last) {
                let i = choose|i: int| 0 <= i < rest.len() && (#[trigger] rest[i]).0@ == last;
                assert(entries[i].0@ != entries[entries.len() - 1].0@);
            }
        }
        assert forall|i: int| 0 <= i < entries.len() implies map_of(entries).contains_key(
            (#[trigger] entries[i]).0@,
        ) && map_of(entries)[entries[i].0@] == entries[i].1 by {
            if i < rest.len() {
                assert(rest[i] == entries[i]);
            }
        }
        assert forall|key: Seq<char>| #[trigger] map_of(entries).contains_key(key) implies exists|
            i: int,
        |
            0 <= i < entries.len() && (#[trigger] entries[i]).0@ == key by {
            if key == last {
                assert(entries[entries.len() - 1].0@ == key);
            } else {
                assert(map_of(rest).contains_key(key));
                let i = choose|i: int| 0 <= i < rest.len() && (#[trigger] rest[i]).0@ == key;
                assert(entries[i] == rest[i]);
            }
        }
    }
}

/// `entry` stands in `all` at `from` or later, and `p` holds of its value.
spec fn kept_from<V>(
    all: Seq<(String, V)>,
    from: int,
    entry: (String, V),
    p: spec_fn(V) -> bool,
) -> bool {
    exists|i: int| from <= i < all.len() && #[trigger] all[i] == entry && p(all[i].1)
}

/// A table of values under textual keys.
pub struct Table<V> {
    entries: Vec<(String, V)>,
}

impl<V> View for Table<V> {
    type V = Map<Seq<char>, V>;

    closed spec fn view(&self) -> Map<Seq<char>, V> {
        map_of(self.entries@)
    }
}

impl<V> Table<V> {
    #[verifier::type_invariant]
    spec fn keys_distinct(self) -> bool {
        distinct(self.entries@)
    }

    /// An empty table.
    pub fn new() -> (r: Self)
        ensures
            r@ == Map::<Seq<char>, V>::empty(),
    {
        Table { entries: Vec::new() }
    }

    /// The entries, each key once.
    pub fn entries(&self) -> (r: &Vec<(String, V)>)
        ensures
            distinct(r@),
            map_of(r@) == self@,
    {
        proof {
            use_type_invariant(self);
        }
        &self.entries
    }

    /// How many keys there are.
    pub fn len(&self) -> (r: usize)
        ensures
            self@.dom().finite(),
            r == self@.len(),
    {
        proof {
            use_type_invariant(self);
            map_of_entries(self.entries@);
        }
        self.entries.len()
    }

    fn position(&self, key: &str) -> (r: Option<usize>)
        ensures
            match r {
                Some(i) => i < self.entries@.len() && self.entries@[i as int].0@ == key@,
                None => forall|i: int|
                    0 <= i < self.entries@.len() ==> (#[trigger] self.entries@[i]).0@ != key@,
            },
    {
        let mut i: usize = 0;
        while i < self.entries.len()
            invariant
                i <= self.entries@.len(),
                forall|j: int| 0 <= j < i ==> (#[trigger] self.entries@[j]).0@ != key@,
            decreases self.entries@.len() - i,
        {
            if same_text(self.entries[i].0.as_str(), key) {
                return Some(i);
            }
            i = i + 1;
        }
        None
    }

    /// The value under `key`.
    pub fn get(&self, key: &str) -> (r: Option<&V>)
        ensures
            match r {
                Some(v) => self@.contains_key(key@) && *v == self@[key@],
                None => !self@.contains_key(key@),
            },
    {
        proof {
            use_type_invariant(self);
            map_of_entries(self.entries@);
        }
        match self.position(key) {
            Some(i) => Some(&self.entries[i].1),
            None => None,
        }
    }

    /// Takes the value under `key` out of the table.
    pub fn remove(&mut self, key: &str) -> (r: Option<V>)
        ensures
            final(self)@ == old(self)@.remove(key@),
            match r {
                Some(v) => old(self)@.contains_key(key@) && v == old(self)@[key@],
                None => !old(self)@.contains_key(key@),
            },
    {
        proof {
            use_type_invariant(&*self);
            map_of_entries(self.entries@);
        }
        let position = self.position(key);
        let ghost before = self.entries@;
        match position {
            Some(i) => {
                let mut entries: Vec<(String, V)> = Vec::new();
                std::mem::swap(&mut entries, &mut self.entries);
                let entry = entries.remove(i);
                proof {
                    assert(entries@ == before.remove(i as int));
                    assert forall|m: int, n: int| 0 <= m < n < entries@.len() implies (
                    #[trigger] entries@[m]).0@ != (#[trigger] entries@[n]).0@ by {
                        let a = if m < i { m } else { m + 1 };
                        let b = if n < i { n } else { n + 1 };
                        assert(entries@[m] == before[a] && entries@[n] == before[b]);
                    }
                    map_of_entries(entries@);
                    assert forall|k: Seq<char>| #[trigger]
                        map_of(entries@).contains_key(k) == map_of(before).remove(
                            key@,
                        ).contains_key(k) by {
                        if map_of(entries@).contains_key(k) {
                            let n = choose|n: int|
                                0 <= n < entries@.len() && (#[trigger] entries@[n]).0@ == k;
                            let b = if n < i { n } else { n + 1 };
                            assert(entries@[n] == before[b]);
                            assert(before[b].0@ != before[i as int].0@);
                        }
                        if map_of(before).remove(key@).contains_key(k) {
                            let b = choose|b: int|
                                0 <= b < before.len() && (#[trigger] before[b]).0@ == k;
                            let n = if b < i { b } else { b - 1 };
                            assert(entries@[n] == before[b]);
                        }
                    }
                    assert forall|k: Seq<char>| #[trigger]
                        map_of(entries@).contains_key(k) implies map_of(entries@)[k] == map_of(
                        before,
                    )[k] by {
                        let n = choose|n: int|
                            0 <= n < entries@.len() && (#[trigger] entries@[n]).0@ == k;
                        let b = if n < i { n } else { n + 1 };
                        assert(entries@[n] == before[b]);
                    }
                    assert(map_of(entries@) =~= map_of(before).remove(key@));
                }
                self.entries = entries;
                Some(entry.1)
            },
            None => {
                assert(map_of(before).remove(key@) =~= map_of(before));
                None
            },
        }
    }

    /// Puts `value` under `key`, in place of the value that was there.
    pub fn insert(&mut self, key: String, value: V)
        ensures
            final(self)@ == old(self)@.insert(key@, value),
    {
        self.remove(key.as_str());
        proof {
            use_type_invariant(&*self);
            map_of_entries(self.entries@);
        }
        let ghost rest = self.entries@;
        let mut entries: Vec<(String, V)> = Vec::new();
        std::mem::swap(&mut entries, &mut self.entries);
        entries.push((key, value));
        proof {
            assert(entries@.drop_last() =~= rest);
            assert forall|m: int, n: int| 0 <= m < n < entries@.len() implies (
            #[trigger] entries@[m]).0@ != (#[trigger] entries@[n]).0@ by {
                assert(entries@[m] == rest[m]);
                if n < rest.len() {
                    assert(entries@[n] == rest[n]);
                } else {
                    assert(map_of(rest).contains_key(rest[m].0@));
                }
            }
            assert(map_of(rest).insert(key@, value) =~= old(self)@.insert(key@, value));
        }
        self.entries = entries;
    }

    /// Drops the values of which `keep` does not hold.
    pub fn retain<F: Fn(&V) -> bool>(&mut self, keep: F, Ghost(p): Ghost<spec_fn(V) -> bool>)
        requires
            forall|v: V| #[trigger] call_requires(keep, (&v,)),
            forall|v: V, b: bool| #[trigger] call_ensures(keep, (&v,), b) ==> b == p(v),
        ensures
            final(self)@ == keep_if(old(self)@, p),
    {
        proof {
            use_type_invariant(&*self);
        }
        let ghost all = self.entries@;
        let mut entries: Vec<(String, V)> = Vec::new();
        std::mem::swap(&mut entries, &mut self.entries);
        let mut kept: Vec<(String, V)> = Vec::new();
        while entries.len() > 0
            invariant
                distinct(all),
                entries@.len() <= all.len(),
                entries@ == all.take(entries@.len() as int),
                distinct(kept@),
                forall|v: V| #[trigger] call_requires(keep, (&v,)),
                forall|v: V, b: bool| #[trigger] call_ensures(keep, (&v,), b) ==> b == p(v),
                forall|j: int|
                    0 <= j < kept@.len() ==> kept_from(
                        all,
                        entries@.len() as int,
                        #[trigger] kept@[j],
                        p,
                    ),
                forall|i: int|
                    entries@.len() <= i < all.len() && p((#[trigger] all[i]).1)
                        ==> kept@.contains(all[i]),
            decreases entries@.len(),
        {
            let ghost was = kept@;
            let ghost n = entries@.len() - 1;
            match entries.pop() {
                Some(entry) => {
                    assert(entry == all[n]);
                    assert(entries@ =~= all.take(n));
                    if keep(&entry.1) {
                        kept.push(entry);
                        proof {
                            assert forall|a: int, b: int| 0 <= a < b < kept@.len() implies (
                            #[trigger] kept@[a]).0@ != (#[trigger] kept@[b]).0@ by {
                                assert(kept@[a] == was[a]);
                                if b == was.len() {
                                    assert(kept_from(all, n + 1, was[a], p));
                                    let i = choose|i: int|
                                        n < i < all.len() && #[trigger] all[i] == was[a] && p(
                                            all[i].1,
                                        );
                                    assert(all[n].0@ != all[i].0@);
                                } else {
                                    assert(kept@[b] == was[b]);
                                }
                            }
                            assert forall|j: int| 0 <= j < kept@.len() implies kept_from(
                                all,
                                n,
                                #[trigger] kept@[j],
                                p,
                            ) by {
                                if j < was.len() {
                                    assert(kept_from(all, n + 1, was[j], p));
                                } else {
                                    assert(all[n] == kept@[j]);
                                }
                            }
                            assert forall|i: int|
                                n <= i < all.len() && p((#[trigger] all[i]).1) implies kept@.contains(
                                all[i],
                            ) by {
                                if i == n {
                                    assert(kept@[was.len() as int] == all[n]);
                                } else {
                                    let j = choose|j: int| 0 <= j < was.len() && was[j] == all[i];
                                    assert(kept@[j] == all[i]);
                                }
                            }
                        }
                    }
                },
                None => {},
            }
        }
        proof {
            map_of_entries(all);
            map_of_entries(kept@);
            let target = keep_if(map_of(all), p);
            assert forall|k: Seq<char>| #[trigger]
                map_of(kept@).contains_key(k) == target.contains_key(k) by {
                if map_of(kept@).contains_key(k) {
                    let j = choose|j: int| 0 <= j < kept@.len() && (#[trigger] kept@[j]).0@ == k;
                    assert(kept_from(all, 0, kept@[j], p));
                    let i = choose|i: int|
                        0 <= i < all.len() && #[trigger] all[i] == kept@[j] && p(all[i].1);
                    assert(map_of(all).contains_key(all[i].0@));
                }
                if target.contains_key(k) {
                    let i = choose|i: int| 0 <= i < all.len() && (#[trigger] all[i]).0@ == k;
                    assert(kept@.contains(all[i]));
                    let j = choose|j: int| 0 <= j < kept@.len() && kept@[j] == all[i];
                    assert(map_of(kept@).contains_key(kept@[j].0@));
                }
            }
            assert forall|k: Seq<char>| #[trigger] map_of(kept@).contains_key(k) implies map_of(
                kept@,
            )[k] == target[k] by {
                let j = choose|j: int| 0 <= j < kept@.len() && (#[trigger] kept@[j]).0@ == k;
                assert(kept_from(all, 0, kept@[j], p));
                let i = choose|i: int|
                    0 <= i < all.len() && #[trigger] all[i] == kept@[j] && p(all[i].1);
                assert(map_of(all)[all[i].0@] == all[i].1);
            }
            assert(map_of(kept@) =~= target);
        }
        self.entries = kept;
    }
}

} // verus!
