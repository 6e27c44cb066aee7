//! A map with string keys that keeps its entries in the order of the keys.

use vstd::prelude::*;

use crate::text;

verus! {

/// `a` stands before `b` in the dictionary order of characters.
pub open spec fn before(a: Seq<char>, b: Seq<char>) -> bool
    decreases a.len(),
{
    if b.len() == 0 {
        false
    } else if a.len() == 0 {
        true
    } else if a[0] == b[0] {
        before(a.skip(1), b.skip(1))
    } else {
        a[0] < b[0]
    }
}

/// The strings stand in strict dictionary order.
pub open spec fn ordered(v: Seq<Seq<char>>) -> bool {
    forall|i: int, j: int| 0 <= i < j < v.len() ==> before(#[trigger] v[i], #[trigger] v[j])
}

pub proof fn lemma_before_irreflexive(a: Seq<char>)
    ensures
        !before(a, a),
    decreases a.len(),
{
    if a.len() > 0 {
        lemma_before_irreflexive(a.skip(1));
    }
}

pub proof fn lemma_before_transitive(a: Seq<char>, b: Seq<char>, c: Seq<char>)
    requires
        before(a, b),
        before(b, c),
    ensures
        before(a, c),
    decreases a.len(),
{
    if a.len() > 0 && a[0] == b[0] && b[0] == c[0] {
        lemma_before_transitive(a.skip(1), b.skip(1), c.skip(1));
    }
}

pub proof fn lemma_before_total(a: Seq<char>, b: Seq<char>)
    ensures
        before(a, b) || before(b, a) || a == b,
    decreases a.len(),
{
    if a.len() == 0 || b.len() == 0 {
        if a.len() == b.len() {
            assert(a =~= b);
        }
    } else if a[0] == b[0] {
        lemma_before_total(a.skip(1), b.skip(1));
        if a.skip(1) == b.skip(1) {
            assert(a =~= seq![a[0]] + a.skip(1));
            assert(b =~= seq![b[0]] + b.skip(1));
        }
    }
}

/// Whether `a` stands before `b` in the dictionary order of characters.
pub fn is_before(a: &str, b: &str) -> (r: bool)
    ensures
        r == before(a@, b@),
{
    let x = text::chars_of(a);
    let y = text::chars_of(b);
    let mut i: usize = 0;
    assert(x@.skip(0) =~= a@);
    assert(y@.skip(0) =~= b@);
    while i < x.len() && i < y.len()
        invariant
            x@ == a@,
            y@ == b@,
            i <= x@.len(),
            i <= y@.len(),
            before(x@.skip(i as int), y@.skip(i as int)) == before(a@, b@),
        decreases x.len() - i,
    {
        let ghost u = x@.skip(i as int);
        let ghost w = y@.skip(i as int);
        if x[i] != y[i] {
            return x[i] < y[i];
        }
        assert(u.skip(1) =~= x@.skip(i + 1));
        assert(w.skip(1) =~= y@.skip(i + 1));
        i = i + 1;
    }
    i < y.len()
}

/// A map from strings, its entries in the order of the keys.
#[derive(Debug)]
pub struct StrMap<T> {
    entries: Vec<(String, T)>,
}

/// The keys of a list of entries.
pub open spec fn keys_of<T>(entries: Seq<(String, T)>) -> Seq<Seq<char>> {
    entries.map_values(|e: (String, T)| e.0@)
}

/// The map that a list of entries with distinct keys stands for.
pub open spec fn map_of<T>(entries: Seq<(String, T)>) -> Map<Seq<char>, T> {
    Map::new(
        |k: Seq<char>| keys_of(entries).contains(k),
        |k: Seq<char>| entries[keys_of(entries).index_of(k)].1,
    )
}

/// In an ordered list of entries, the entry at a place is the value of its key.
proof fn lemma_entry<T>(entries: Seq<(String, T)>, i: int)
    requires
        ordered(keys_of(entries)),
        0 <= i < entries.len(),
    ensures
        map_of(entries).dom().contains(entries[i].0@),
        map_of(entries)[entries[i].0@] == entries[i].1,
        forall|j: int| 0 <= j < entries.len() && j != i ==> entries[j].0@ != entries[i].0@,
{
    let keys = keys_of(entries);
    let k = entries[i].0@;
    assert(keys[i] == k);
    assert forall|j: int| 0 <= j < entries.len() && j != i implies entries[j].0@ != k by {
        lemma_before_irreflexive(k);
        assert(keys[j] == entries[j].0@);
        if j < i {
            assert(before(keys[j], keys[i]));
        } else {
            assert(before(keys[i], keys[j]));
        }
    }
    let m = keys.index_of(k);
    assert(keys[m] == k);
    assert(keys[m] == entries[m].0@);
}

impl<T> View for StrMap<T> {
    type V = Map<Seq<char>, T>;

    closed spec fn view(&self) -> Map<Seq<char>, T> {
        map_of(self.entries@)
    }
}

impl<T> StrMap<T> {
    #[verifier::type_invariant]
    spec fn wf(self) -> bool {
        ordered(keys_of(self.entries@))
    }

    /// The keys in their order.
    pub closed spec fn keys(&self) -> Seq<Seq<char>> {
        keys_of(self.entries@)
    }

    /// An empty map.
    pub fn new() -> (r: Self)
        ensures
            r@ == Map::<Seq<char>, T>::empty(),
            r.keys() == Seq::<Seq<char>>::empty(),
    {
        let entries: Vec<(String, T)> = Vec::new();
        let r = StrMap { entries };
        assert(r@ =~= Map::<Seq<char>, T>::empty());
        assert(r.keys() =~= Seq::<Seq<char>>::empty());
        r
    }

    /// The number of entries. The keys are in strict order, and they are the
    /// domain of the map.
    pub fn len(&self) -> (r: usize)
        ensures
            r == self.keys().len(),
            r == self@.dom().len(),
            ordered(self.keys()),
            forall|k: Seq<char>| #[trigger]
                self@.dom().contains(k) == self.keys().contains(k),
    {
        proof {
            use_type_invariant(self);
            let keys = self.keys();
            assert(keys.no_duplicates()) by {
                assert forall|i: int, j: int|
                    0 <= i < keys.len() && 0 <= j < keys.len() && i != j implies keys[i]
                    != keys[j] by {
                    lemma_before_irreflexive(keys[i]);
                    if i < j {
                        assert(before(keys[i], keys[j]));
                    } else {
                        assert(before(keys[j], keys[i]));
                    }
                }
            }
            keys.unique_seq_to_set();
            assert(keys.to_set() =~= self@.dom());
        }
        self.entries.len()
    }

    /// The key at a place in the order.
    pub fn key_at(&self, i: usize) -> (r: &String)
        requires
            i < self.keys().len(),
        ensures
            r@ == self.keys()[i as int],
            self@.dom().contains(r@),
    {
        proof {
            use_type_invariant(self);
            lemma_entry(self.entries@, i as int);
        }
        &self.entries[i].0
    }

    /// The value of the key at a place in the order.
    pub fn value_at(&self, i: usize) -> (r: &T)
        requires
            i < self.keys().len(),
        ensures
            self@.dom().contains(self.keys()[i as int]),
            *r == self@[self.keys()[i as int]],
    {
        proof {
            use_type_invariant(self);
            lemma_entry(self.entries@, i as int);
        }
        &self.entries[i].1
    }

    /// The place of the first key that does not stand before `k`.
    fn place(&self, k: &str) -> (r: usize)
        ensures
            r <= self.entries@.len(),
            forall|j: int| 0 <= j < r ==> before(#[trigger] self.entries@[j].0@, k@),
            r < self.entries@.len() ==> !before(self.entries@[r as int].0@, k@),
    {
        let mut i: usize = 0;
        while i < self.entries.len() && is_before(&self.entries[i].0, k)
            invariant
                i <= self.entries@.len(),
                forall|j: int| 0 <= j < i ==> before(#[trigger] self.entries@[j].0@, k@),
            decreases self.entries.len() - i,
        {
            i = i + 1;
        }
        i
    }

    /// The value of a key.
    pub fn get(&self, k: &str) -> (r: Option<&T>)
        ensures
            match r {
                Some(v) => self@.dom().contains(k@) && self@[k@] == *v,
                None => !self@.dom().contains(k@),
            },
    {
        proof {
            use_type_invariant(self);
        }
        for i in 0..self.entries.len()
            invariant
                ordered(keys_of(self.entries@)),
                forall|j: int| 0 <= j < i ==> (#[trigger] self.entries@[j]).0@ != k@,
        {
            if text::same(&self.entries[i].0, k) {
                proof {
                    lemma_entry(self.entries@, i as int);
                }
                return Some(&self.entries[i].1);
            }
        }
        proof {
            let keys = keys_of(self.entries@);
            assert forall|j: int| 0 <= j < keys.len() implies keys[j] != k@ by {
                assert(keys[j] == self.entries@[j].0@);
            }
        }
        None
    }

    /// Whether a key has a value.
    pub fn contains_key(&self, k: &str) -> (r: bool)
        ensures
            r == self@.dom().contains(k@),
    {
        self.get(k).is_some()
    }

    /// Gives a key a value, in place of any that it had.
    pub fn insert(&mut self, k: String, v: T)
        ensures
            final(self)@ == old(self)@.insert(k@, v),
    {
        proof {
            use_type_invariant(&*self);
        }
        let at = self.place(&k);
        let mut entries: Vec<(String, T)> = Vec::new();
        core::mem::swap(&mut entries, &mut self.entries);
        let ghost old_entries = entries@;
        let replace = at < entries.len() && text::same(&entries[at].0, &k);
        if replace {
            entries.remove(at);
        }
        let ghost kept = entries@;
        entries.insert(at, (k, v));
        proof {
            if replace {
                assert(entries@ =~= old_entries.update(at as int, (k, v)));
                lemma_update(old_entries, at as int, k, v);
            } else {
                lemma_insert(old_entries, at as int, k, v);
            }
        }
        self.entries = entries;
    }

    /// Takes a key and its value out.
    pub fn remove(&mut self, k: &str) -> (r: Option<T>)
        ensures
            final(self)@ == old(self)@.remove(k@),
            match r {
                Some(v) => old(self)@.dom().contains(k@) && old(self)@[k@] == v,
                None => !old(self)@.dom().contains(k@),
            },
    {
        proof {
            use_type_invariant(&*self);
        }
        let mut entries: Vec<(String, T)> = Vec::new();
        core::mem::swap(&mut entries, &mut self.entries);
        let ghost old_entries = entries@;
        let mut i: usize = 0;
        while i < entries.len() && !text::same(&entries[i].0, k)
            invariant
                i <= entries@.len(),
                entries@ == old_entries,
                forall|j: int| 0 <= j < i ==> (#[trigger] entries@[j]).0@ != k@,
            decreases entries.len() - i,
        {
            i = i + 1;
        }
        if i < entries.len() {
            let e = entries.remove(i);
            proof {
                lemma_remove(old_entries, i as int);
                lemma_entry(old_entries, i as int);
            }
            self.entries = entries;
            Some(e.1)
        } else {
            proof {
                let keys = keys_of(old_entries);
                assert forall|j: int| 0 <= j < keys.len() implies keys[j] != k@ by {
                    assert(keys[j] == old_entries[j].0@);
                }
                assert(map_of(old_entries).remove(k@) =~= map_of(old_entries));
            }
            self.entries = entries;
            None
        }
    }
}

proof fn lemma_update<T>(entries: Seq<(String, T)>, at: int, k: String, v: T)
    requires
        ordered(keys_of(entries)),
        0 <= at < entries.len(),
        entries[at].0@ == k@,
    ensures
        ordered(keys_of(entries.update(at, (k, v)))),
        map_of(entries.update(at, (k, v))) == map_of(entries).insert(k@, v),
{
    let new = entries.update(at, (k, v));
    assert(keys_of(new) =~= keys_of(entries));
    assert forall|key: Seq<char>| keys_of(new).contains(key) implies #[trigger] map_of(new)[key]
        == map_of(entries).insert(k@, v)[key] by {
        let i = keys_of(new).index_of(key);
        lemma_entry(new, i);
        lemma_entry(entries, i);
        lemma_entry(entries, at);
    }
    assert(keys_of(entries)[at] == k@);
    assert(map_of(new) =~= map_of(entries).insert(k@, v));
}

proof fn lemma_insert<T>(entries: Seq<(String, T)>, at: int, k: String, v: T)
    requires
        ordered(keys_of(entries)),
        0 <= at <= entries.len(),
        forall|j: int| 0 <= j < at ==> before(#[trigger] entries[j].0@, k@),
        at < entries.len() ==> !before(entries[at].0@, k@) && entries[at].0@ != k@,
    ensures
        ordered(keys_of(entries.insert(at, (k, v)))),
        map_of(entries.insert(at, (k, v))) == map_of(entries).insert(k@, v),
{
    let new = entries.insert(at, (k, v));
    let keys = keys_of(entries);
    let new_keys = keys_of(new);
    assert forall|j: int| at <= j < entries.len() implies before(k@, #[trigger] keys[j]) by {
        lemma_before_total(k@, keys[at]);
        assert(keys[at] == entries[at].0@);
        if j > at {
            assert(before(keys[at], keys[j]));
            lemma_before_transitive(k@, keys[at], keys[j]);
        }
    }
    assert forall|i: int, j: int| 0 <= i < j < new_keys.len() implies before(
        #[trigger] new_keys[i],
        #[trigger] new_keys[j],
    ) by {
        let i0 = if i < at {
            i
        } else {
            i - 1
        };
        let j0 = if j < at {
            j
        } else {
            j - 1
        };
        if i != at {
            assert(new_keys[i] == keys[i0]);
        }
        if j != at {
            assert(new_keys[j] == keys[j0]);
        }
        if i == at {
            assert(before(k@, keys[j0]));
        } else if j == at {
            assert(before(entries[i0].0@, k@));
        } else {
            assert(before(keys[i0], keys[j0]));
        }
    }
    assert forall|key: Seq<char>| #[trigger]
        new_keys.contains(key) == map_of(entries).insert(k@, v).dom().contains(key) by {
        if new_keys.contains(key) {
            let i = new_keys.index_of(key);
            if i < at {
                assert(keys[i] == key);
            } else if i > at {
                assert(keys[i - 1] == key);
            }
        }
        if keys.contains(key) {
            let i = keys.index_of(key);
            if i < at {
                assert(new_keys[i] == key);
            } else {
                assert(new_keys[i + 1] == key);
            }
        }
        assert(new_keys[at] == k@);
    }
    assert forall|key: Seq<char>| new_keys.contains(key) implies #[trigger] map_of(new)[key]
        == map_of(entries).insert(k@, v)[key] by {
        let i = new_keys.index_of(key);
        lemma_entry(new, i);
        lemma_entry(new, at);
        if i < at {
            lemma_entry(entries, i);
        } else if i > at {
            lemma_entry(entries, i - 1);
        }
    }
    assert(map_of(new) =~= map_of(entries).insert(k@, v));
}

proof fn lemma_remove<T>(entries: Seq<(String, T)>, at: int)
    requires
        ordered(keys_of(entries)),
        0 <= at < entries.len(),
    ensures
        ordered(keys_of(entries.remove(at))),
        map_of(entries.remove(at)) == map_of(entries).remove(entries[at].0@),
{
    let new = entries.remove(at);
    let k = entries[at].0@;
    let keys = keys_of(entries);
    let new_keys = keys_of(new);
    assert forall|i: int, j: int| 0 <= i < j < new_keys.len() implies before(
        #[trigger] new_keys[i],
        #[trigger] new_keys[j],
    ) by {
        let i0 = if i < at {
            i
        } else {
            i + 1
        };
        let j0 = if j < at {
            j
        } else {
            j + 1
        };
        assert(new_keys[i] == keys[i0]);
        assert(new_keys[j] == keys[j0]);
    }
    lemma_entry(entries, at);
    assert forall|key: Seq<char>| #[trigger]
        new_keys.contains(key) == map_of(entries).remove(k).dom().contains(key) by {
        if new_keys.contains(key) {
            let i = new_keys.index_of(key);
            let i0 = if i < at {
                i
            } else {
                i + 1
            };
            assert(keys[i0] == key);
            assert(entries[i0].0@ != k);
        }
        if keys.contains(key) && key != k {
            let i = keys.index_of(key);
            if i < at {
                assert(new_keys[i] == key);
            } else {
                assert(i != at);
                assert(new_keys[i - 1] == key);
            }
        }
    }
    assert forall|key: Seq<char>| new_keys.contains(key) implies #[trigger] map_of(new)[key]
        == map_of(entries).remove(k)[key] by {
        let i = new_keys.index_of(key);
        lemma_entry(new, i);
        if i < at {
            lemma_entry(entries, i);
        } else {
            lemma_entry(entries, i + 1);
        }
    }
    assert(map_of(new) =~= map_of(entries).remove(k));
}

/// The values of a map of strings, by their views.
pub open spec fn string_values(m: Map<Seq<char>, String>) -> Map<Seq<char>, Seq<char>> {
    m.map_values(|s: String| s@)
}

/// Texts are in the order of a dictionary: what decides is the first place at
/// which they differ, and a text that goes on comes behind.
pub proof fn first_difference_decides(a: Seq<char>, b: Seq<char>, k: int)
    requires
        0 <= k <= a.len(),
        k <= b.len(),
        a.take(k) == b.take(k),
    ensures
        k < a.len() && k < b.len() && a[k] != b[k] ==> before(a, b) == (a[k] < b[k]),
        k == a.len() ==> before(a, b) == (a.len() < b.len()),
        k == b.len() ==> !before(a, b),
    decreases k,
{
    if k > 0 {
        assert(a.take(k)[0] == a[0]);
        assert(b.take(k)[0] == b[0]);
        let x = a.skip(1);
        let y = b.skip(1);
        assert(x.take(k - 1) =~= a.take(k).skip(1));
        assert(y.take(k - 1) =~= b.take(k).skip(1));
        first_difference_decides(x, y, k - 1);
    }
}

/// The values of a map of texts are those texts, under the same keys.
pub proof fn values_keep_their_keys(m: Map<Seq<char>, String>, k: Seq<char>)
    ensures
        string_values(m).dom().contains(k) == m.dom().contains(k),
        m.dom().contains(k) ==> string_values(m)[k] == m[k]@,
{
}

} // verus!
