//! What is under way, by its identifier: requests that wait for the user's
//! answer, transfers that can be cancelled, peers that have been seen.

use vstd::prelude::*;

verus! {

/// Values by identifier, each identifier once.
pub struct Registry<T> {
    entries: Vec<(String, T)>,
}

/// The entry of `id` is the one at `i`.
spec fn is_at<T>(entries: Seq<(String, T)>, id: Seq<char>, i: int) -> bool {
    0 <= i < entries.len() && entries[i].0@ == id
}

/// The values of `entries` by identifier.
spec fn by_id<T>(entries: Seq<(String, T)>) -> Map<Seq<char>, T> {
    Map::new(
        |id: Seq<char>| exists|i: int| is_at(entries, id, i),
        |id: Seq<char>| entries[choose|i: int| is_at(entries, id, i)].1,
    )
}

/// No identifier stands in `entries` twice.
spec fn ids_differ<T>(entries: Seq<(String, T)>) -> bool {
    forall|i: int, j: int|
        0 <= i < j < entries.len() ==> (#[trigger] entries[i]).0@ != (#[trigger] entries[j]).0@
}

impl<T> View for Registry<T> {
    type V = Map<Seq<char>, T>;

    closed spec fn view(&self) -> Map<Seq<char>, T> {
        by_id(self.entries@)
    }
}

/// Where identifiers differ, an entry is what its identifier leads to.
proof fn entry_is_found<T>(entries: Seq<(String, T)>, i: int)
    requires
        ids_differ(entries),
        0 <= i < entries.len(),
    ensures
        by_id(entries).contains_key(entries[i].0@),
        by_id(entries)[entries[i].0@] == entries[i].1,
{
    let id = entries[i].0@;
    assert(is_at(entries, id, i));
    let j = choose|j: int| is_at(entries, id, j);
    assert(j == i);
}

/// What an identifier leads to stands in some entry.
proof fn found_is_an_entry<T>(entries: Seq<(String, T)>, id: Seq<char>) -> (i: int)
    requires
        by_id(entries).contains_key(id),
    ensures
        is_at(entries, id, i),
        by_id(entries)[id] == entries[i].1,
{
    choose|i: int| is_at(entries, id, i)
}

impl<T> Registry<T> {
    #[verifier::type_invariant]
    spec fn wf(self) -> bool {
        ids_differ(self.entries@)
    }

    /// The identifiers, in the order in which the entries are kept.
    pub closed spec fn ids(self) -> Seq<Seq<char>> {
        self.entries@.map_values(|e: (String, T)| e.0@)
    }

    /// A registry with nothing in it.
    pub fn new() -> (r: Registry<T>)
        ensures
            r@ == Map::<Seq<char>, T>::empty(),
    {
        let r = Registry { entries: Vec::new() };
        proof {
            assert(r@ =~= Map::<Seq<char>, T>::empty());
        }
        r
    }

    /// Where the entry of `id` stands.
    fn position(&self, id: &String) -> (at: Option<usize>)
        ensures
            at matches Some(i) ==> is_at(self.entries@, id@, i as int),
            at is None ==> !self@.contains_key(id@),
    {
        let mut i: usize = 0;
        while i < self.entries.len()
            invariant
                i <= self.entries@.len(),
                forall|j: int| 0 <= j < i ==> !#[trigger] is_at(self.entries@, id@, j),
            decreases self.entries@.len() - i,
        {
            if self.entries[i].0 == *id {
                return Some(i);
            }
            i += 1;
        }
        proof {
            assert forall|j: int| !is_at(self.entries@, id@, j) by {
                if 0 <= j < self.entries@.len() {
                    assert(!is_at(self.entries@, id@, j));
                }
            }
        }
        None
    }

    /// Whether there is an entry for `id`.
    pub fn contains(&self, id: &String) -> (b: bool)
        ensures
            b == self@.contains_key(id@),
    {
        proof {
            use_type_invariant(self);
        }
        match self.position(id) {
            Some(i) => {
                proof {
                    entry_is_found(self.entries@, i as int);
                }
                true
            },
            None => false,
        }
    }

    /// Takes the entry of `id` out.
    pub fn remove(&mut self, id: &String) -> (value: Option<T>)
        ensures
            final(self)@ == old(self)@.remove(id@),
            value == (if old(self)@.contains_key(id@) {
                Some(old(self)@[id@])
            } else {
                None
            }),
    {
        proof {
            use_type_invariant(&*self);
        }
        let ghost before = self.entries@;
        match self.position(id) {
            Some(i) => {
                let mut entries: Vec<(String, T)> = Vec::new();
                std::mem::swap(&mut entries, &mut self.entries);
                let (_, value) = entries.remove(i);
                let ghost after = entries@;
                proof {
                    assert(ids_differ(after));
                }
                self.entries = entries;
                proof {
                    entry_is_found(before, i as int);
                    assert forall|k: Seq<char>|
                        by_id(after).contains_key(k) implies #[trigger] by_id(before).remove(
                        id@,
                    ).contains_key(k) && by_id(after)[k] == by_id(before)[k] by {
                        let j = found_is_an_entry(after, k);
                        let at = if j < i {
                            j
                        } else {
                            j + 1
                        };
                        assert(before[at] == after[j]);
                        entry_is_found(before, at);
                    }
                    assert forall|k: Seq<char>|
                        by_id(before).remove(id@).contains_key(k) implies #[trigger] by_id(
                        after,
                    ).contains_key(k) by {
                        let j = found_is_an_entry(before, k);
                        let at = if j < i {
                            j
                        } else {
                            j - 1
                        };
                        assert(after[at] == before[j]);
                        entry_is_found(after, at);
                    }
                    assert(by_id(after) =~= by_id(before).remove(id@));
                }
                Some(value)
            },
            None => {
                proof {
                    assert(by_id(before) =~= by_id(before).remove(id@));
                }
                None
            },
        }
    }

    /// Puts `value` in for `id`. What stood there before is given back.
    pub fn insert(&mut self, id: String, value: T) -> (before: Option<T>)
        ensures
            final(self)@ == old(self)@.insert(id@, value),
            before == (if old(self)@.contains_key(id@) {
                Some(old(self)@[id@])
            } else {
                None
            }),
    {
        let before = self.remove(&id);
        proof {
            use_type_invariant(&*self);
        }
        let ghost rest = self.entries@;
        let ghost key = id@;
        proof {
            assert forall|i: int| 0 <= i < rest.len() implies (#[trigger] rest[i]).0@ != key by {
                if rest[i].0@ == key {
                    entry_is_found(rest, i);
                }
            }
        }
        let mut entries: Vec<(String, T)> = Vec::new();
        std::mem::swap(&mut entries, &mut self.entries);
        entries.push((id, value));
        let ghost after = entries@;
        self.entries = entries;
        proof {
            let n = rest.len() as int;
            entry_is_found(after, n);
            assert forall|k: Seq<char>|
                by_id(after).contains_key(k) implies #[trigger] by_id(rest).insert(
                key,
                value,
            ).contains_key(k) && by_id(after)[k] == by_id(rest).insert(key, value)[k] by {
                let j = found_is_an_entry(after, k);
                if j < n {
                    assert(rest[j] == after[j]);
                    entry_is_found(rest, j);
                }
            }
            assert forall|k: Seq<char>|
                by_id(rest).insert(key, value).contains_key(k) implies #[trigger] by_id(
                after,
            ).contains_key(k) by {
                if k != key {
                    let j = found_is_an_entry(rest, k);
                    assert(after[j] == rest[j]);
                    entry_is_found(after, j);
                }
            }
            assert(by_id(after) =~= by_id(rest).insert(key, value));
            assert(by_id(rest).insert(key, value) =~= old(self)@.insert(key, value));
        }
        before
    }

    /// How many entries there are. Each identifier stands once among `ids`.
    pub fn len(&self) -> (n: usize)
        ensures
            n == self.ids().len(),
            self.ids().no_duplicates(),
            forall|id: Seq<char>| #[trigger]
                self@.contains_key(id) <==> self.ids().contains(id),
    {
        proof {
            use_type_invariant(self);
            let ids = self.ids();
            assert forall|id: Seq<char>| #[trigger] self@.contains_key(id) <==> ids.contains(id) by {
                if self@.contains_key(id) {
                    let i = found_is_an_entry(self.entries@, id);
                    assert(ids[i] == id);
                }
                if ids.contains(id) {
                    let i = choose|i: int| 0 <= i < ids.len() && ids[i] == id;
                    entry_is_found(self.entries@, i);
                }
            }
        }
        self.entries.len()
    }

    /// The value of entry number `i`.
    pub fn value_at(&self, i: usize) -> (value: &T)
        requires
            i < self.ids().len(),
        ensures
            *value == self@[self.ids()[i as int]],
    {
        proof {
            use_type_invariant(self);
            entry_is_found(self.entries@, i as int);
        }
        &self.entries[i].1
    }

    /// Takes out every entry whose value `keep` is false of.
    pub fn retain<F: Fn(&T) -> bool>(&mut self, keep: F)
        requires
            forall|value: T| #[trigger] call_requires(keep, (&value,)),
        ensures
            final(self)@.dom().subset_of(old(self)@.dom()),
            forall|id: Seq<char>| #[trigger]
                final(self)@.contains_key(id) ==> {
                    &&& final(self)@[id] == old(self)@[id]
                    &&& call_ensures(keep, (&old(self)@[id],), true)
                },
            forall|id: Seq<char>|
                old(self)@.contains_key(id) && !#[trigger] final(self)@.contains_key(id)
                    ==> call_ensures(keep, (&old(self)@[id],), false),
    {
        proof {
            use_type_invariant(&*self);
        }
        let ghost before = self.entries@;
        let ghost map = self@;
        let mut rest: Vec<(String, T)> = Vec::new();
        std::mem::swap(&mut rest, &mut self.entries);
        let mut kept: Vec<(String, T)> = Vec::new();
        let ghost mut from: Seq<int> = Seq::empty();
        while rest.len() > 0
            invariant
                ids_differ(before),
                map == by_id(before),
                rest@.len() <= before.len(),
                rest@ == before.take(rest@.len() as int),
                forall|value: T| #[trigger] call_requires(keep, (&value,)),
                from.len() == kept@.len(),
                forall|j: int|
                    0 <= j < from.len() ==> {
                        &&& rest@.len() <= #[trigger] from[j] < before.len()
                        &&& kept@[j] == before[from[j]]
                        &&& call_ensures(keep, (&before[from[j]].1,), true)
                    },
                forall|j: int, k: int| 0 <= j < k < from.len() ==> from[j] != from[k],
                forall|i: int|
                    rest@.len() <= i < before.len() ==> from.contains(i) || call_ensures(
                        keep,
                        (&(#[trigger] before[i]).1,),
                        false,
                    ),
            decreases rest@.len(),
        {
            let ghost n = rest@.len() - 1;
            if let Some((id, value)) = rest.pop() {
                proof {
                    assert(before[n] == (id, value));
                }
                if keep(&value) {
                    let ghost old_from = from;
                    kept.push((id, value));
                    proof {
                        from = from.push(n);
                        assert(from[from.len() - 1] == n);
                        assert forall|i: int| old_from.contains(i) implies from.contains(i) by {
                            let j = choose|j: int| 0 <= j < old_from.len() && old_from[j] == i;
                            assert(from[j] == i);
                        }
                    }
                }
            }
        }
        proof {
            assert forall|i: int, j: int| 0 <= i < j < kept@.len() implies (#[trigger]
            kept@[i]).0@ != (#[trigger] kept@[j]).0@ by {
                assert(from[i] != from[j]);
                assert(kept@[i] == before[from[i]]);
                assert(kept@[j] == before[from[j]]);
            }
        }
        let ghost after = kept@;
        self.entries = kept;
        proof {
            assert forall|id: Seq<char>| #[trigger] by_id(after).contains_key(id) implies {
                &&& map.contains_key(id)
                &&& by_id(after)[id] == map[id]
                &&& call_ensures(keep, (&map[id],), true)
            } by {
                let j = found_is_an_entry(after, id);
                entry_is_found(before, from[j]);
            }
            assert forall|id: Seq<char>|
                map.contains_key(id) && !#[trigger] by_id(after).contains_key(id)
                    implies call_ensures(keep, (&map[id],), false) by {
                let i = found_is_an_entry(before, id);
                if from.contains(i) {
                    let j = choose|j: int| 0 <= j < from.len() && from[j] == i;
                    assert(after[j] == before[from[j]]);
                    entry_is_found(after, j);
                }
                entry_is_found(before, i);
            }
        }
    }
}

} // verus!
