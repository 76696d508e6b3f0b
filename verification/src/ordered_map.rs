//! A map from strings to values that keeps its entries in the order of their keys.

use vstd::prelude::*;

use crate::strings::chars_of;

verus! {

/// `a` and `b` agree before position `i`, where either `a` has ended and `b` has not, or
/// `a` has the smaller character.
pub open spec fn splits_at(a: Seq<char>, b: Seq<char>, i: int) -> bool {
    &&& 0 <= i <= a.len()
    &&& i < b.len()
    &&& forall|j: int| 0 <= j < i ==> #[trigger] a[j] == b[j]
    &&& i < a.len() ==> a[i] < b[i]
}

/// The lexicographic order of strings, by code point.
pub open spec fn precedes(a: Seq<char>, b: Seq<char>) -> bool {
    exists|i: int| #[trigger] splits_at(a, b, i)
}

/// No string precedes itself.
pub proof fn lemma_precedes_irreflexive(a: Seq<char>)
    ensures
        !precedes(a, a),
{
}

/// The order of strings is transitive.
pub proof fn lemma_precedes_transitive(a: Seq<char>, b: Seq<char>, c: Seq<char>)
    requires
        precedes(a, b),
        precedes(b, c),
    ensures
        precedes(a, c),
{
    let i = choose|i: int| #[trigger] splits_at(a, b, i);
    let j = choose|j: int| #[trigger] splits_at(b, c, j);
    let k = if i < j {
        i
    } else {
        j
    };
    assert forall|m: int| 0 <= m < k implies #[trigger] a[m] == c[m] by {
        assert(a[m] == b[m]);
        assert(b[m] == c[m]);
    }
    assert(b[k] == b[k]);
    assert(splits_at(a, c, k));
}

/// Of two strings at most one precedes the other.
pub proof fn lemma_precedes_asymmetric(a: Seq<char>, b: Seq<char>)
    requires
        precedes(a, b),
    ensures
        !precedes(b, a),
        a != b,
{
    if precedes(b, a) {
        lemma_precedes_transitive(a, b, a);
        lemma_precedes_irreflexive(a);
    }
    if a == b {
        lemma_precedes_irreflexive(a);
    }
}

/// Of two different strings one precedes the other.
pub proof fn lemma_order_total(a: Seq<char>, b: Seq<char>)
    ensures
        a == b || precedes(a, b) || precedes(b, a),
{
    lemma_order_total_from(a, b, 0);
}

proof fn lemma_order_total_from(a: Seq<char>, b: Seq<char>, i: int)
    requires
        0 <= i <= a.len(),
        i <= b.len(),
        forall|j: int| 0 <= j < i ==> #[trigger] a[j] == b[j],
    ensures
        a == b || precedes(a, b) || precedes(b, a),
    decreases a.len() - i,
{
    if i == a.len() && i == b.len() {
        assert(a =~= b);
    } else if i < a.len() && i < b.len() && a[i] == b[i] {
        lemma_order_total_from(a, b, i + 1);
    } else if i < b.len() && (i == a.len() || a[i] < b[i]) {
        assert(splits_at(a, b, i));
    } else {
        assert(splits_at(b, a, i));
    }
}

/// How one key stands to another.
#[derive(Clone, Copy, Debug, PartialEq, Eq)]
pub enum KeyOrder {
    Before,
    Same,
    After,
}

/// Places `a` against `b` in the order of strings.
pub fn compare(a: &str, b: &str) -> (r: KeyOrder)
    ensures
        r is Before <==> precedes(a@, b@),
        r is Same <==> a@ == b@,
        r is After <==> precedes(b@, a@),
{
    let left = chars_of(a);
    let right = chars_of(b);
    let mut i: usize = 0;
    while i < left.len() && i < right.len() && left[i] == right[i]
        invariant
            left@ == a@,
            right@ == b@,
            i <= left.len(),
            i <= right.len(),
            forall|j: int| 0 <= j < i ==> #[trigger] a@[j] == b@[j],
        decreases left.len() - i,
    {
        i = i + 1;
    }
    if i < right.len() && (i == left.len() || left[i] < right[i]) {
        proof {
            assert(splits_at(a@, b@, i as int));
            lemma_precedes_asymmetric(a@, b@);
        }
        KeyOrder::Before
    } else if i < left.len() {
        proof {
            assert(splits_at(b@, a@, i as int));
            lemma_precedes_asymmetric(b@, a@);
        }
        KeyOrder::After
    } else {
        proof {
            assert(a@ =~= b@);
            lemma_precedes_irreflexive(a@);
        }
        KeyOrder::Same
    }
}

/// The keys of the entries increase strictly, so that none occurs twice.
pub open spec fn sorted<T>(entries: Seq<(Seq<char>, T)>) -> bool {
    forall|i: int, j: int|
        0 <= i < j < entries.len() ==> precedes(#[trigger] entries[i].0, #[trigger] entries[j].0)
}

/// Whether some entry has the key.
pub open spec fn has_key<T>(entries: Seq<(Seq<char>, T)>, key: Seq<char>) -> bool {
    exists|i: int| 0 <= i < entries.len() && #[trigger] entries[i].0 == key
}

/// The value of the entry with the key, if there is one.
pub open spec fn lookup<T>(entries: Seq<(Seq<char>, T)>, key: Seq<char>) -> Option<T> {
    if has_key(entries, key) {
        Some(entries[choose|i: int| 0 <= i < entries.len() && #[trigger] entries[i].0 == key].1)
    } else {
        None
    }
}

/// Among sorted entries a key leads to the value it stands with.
pub proof fn lemma_lookup_at<T>(entries: Seq<(Seq<char>, T)>, i: int)
    requires
        sorted(entries),
        0 <= i < entries.len(),
    ensures
        lookup(entries, entries[i].0) == Some(entries[i].1),
{
    let key = entries[i].0;
    let j = choose|j: int| 0 <= j < entries.len() && #[trigger] entries[j].0 == key;
    assert(entries[i].0 == key);
    lemma_precedes_irreflexive(key);
    if i < j {
        assert(precedes(entries[i].0, entries[j].0));
    } else if j < i {
        assert(precedes(entries[j].0, entries[i].0));
    }
}

/// Sorted entries are determined by what each key leads to.
pub proof fn lemma_lookup_determines<T>(a: Seq<(Seq<char>, T)>, b: Seq<(Seq<char>, T)>)
    requires
        sorted(a),
        sorted(b),
        forall|key: Seq<char>| #[trigger] lookup(a, key) == lookup(b, key),
    ensures
        a == b,
    decreases a.len(),
{
    if a.len() == 0 {
        if b.len() > 0 {
            lemma_lookup_at(b, 0);
            assert(lookup(a, b[0].0) == lookup(b, b[0].0));
            assert(!has_key(a, b[0].0));
        }
        assert(a =~= b);
    } else {
        lemma_lookup_at(a, 0);
        assert(lookup(a, a[0].0) == lookup(b, a[0].0));
        assert(has_key(b, a[0].0));
        let j = choose|j: int| 0 <= j < b.len() && #[trigger] b[j].0 == a[0].0;
        lemma_lookup_at(b, j);
        if j > 0 {
            assert(precedes(b[0].0, b[j].0));
            lemma_lookup_at(b, 0);
            assert(lookup(a, b[0].0) == lookup(b, b[0].0));
            assert(has_key(a, b[0].0));
            let i = choose|i: int| 0 <= i < a.len() && #[trigger] a[i].0 == b[0].0;
            lemma_precedes_asymmetric(b[0].0, a[0].0);
            if i > 0 {
                assert(precedes(a[0].0, a[i].0));
            }
            assert(false);
        }
        assert(a[0] == b[0]);
        let ta = a.drop_first();
        let tb = b.drop_first();
        assert(sorted(ta)) by {
            assert forall|i: int, k: int| 0 <= i < k < ta.len() implies precedes(
                #[trigger] ta[i].0,
                #[trigger] ta[k].0,
            ) by {
                assert(precedes(a[i + 1].0, a[k + 1].0));
            }
        }
        assert(sorted(tb)) by {
            assert forall|i: int, k: int| 0 <= i < k < tb.len() implies precedes(
                #[trigger] tb[i].0,
                #[trigger] tb[k].0,
            ) by {
                assert(precedes(b[i + 1].0, b[k + 1].0));
            }
        }
        assert forall|key: Seq<char>| #[trigger] lookup(ta, key) == lookup(tb, key) by {
            lemma_lookup_tail(a, key);
            lemma_lookup_tail(b, key);
            assert(lookup(a, key) == lookup(b, key));
        }
        lemma_lookup_determines(ta, tb);
        assert(a =~= seq![a[0]] + ta);
        assert(b =~= seq![b[0]] + tb);
    }
}

proof fn lemma_lookup_tail<T>(a: Seq<(Seq<char>, T)>, key: Seq<char>)
    requires
        sorted(a),
        a.len() > 0,
    ensures
        lookup(a.drop_first(), key) == (if key == a[0].0 {
            None
        } else {
            lookup(a, key)
        }),
{
    let t = a.drop_first();
    assert(sorted(t)) by {
        assert forall|i: int, k: int| 0 <= i < k < t.len() implies precedes(
            #[trigger] t[i].0,
            #[trigger] t[k].0,
        ) by {
            assert(precedes(a[i + 1].0, a[k + 1].0));
        }
    }
    if has_key(t, key) {
        let i = choose|i: int| 0 <= i < t.len() && #[trigger] t[i].0 == key;
        lemma_lookup_at(t, i);
        lemma_lookup_at(a, i + 1);
        assert(precedes(a[0].0, a[i + 1].0));
        lemma_precedes_asymmetric(a[0].0, key);
    } else if key != a[0].0 && has_key(a, key) {
        let i = choose|i: int| 0 <= i < a.len() && #[trigger] a[i].0 == key;
        assert(t[i - 1].0 == key);
    }
}

/// Putting a key between the smaller and the greater ones keeps the entries sorted and
/// changes what that key alone leads to.
proof fn lemma_entry_inserted<T>(a: Seq<(Seq<char>, T)>, at: int, key: Seq<char>, value: T)
    requires
        sorted(a),
        0 <= at <= a.len(),
        forall|i: int| 0 <= i < at ==> precedes(#[trigger] a[i].0, key),
        forall|i: int| at <= i < a.len() ==> precedes(key, #[trigger] a[i].0),
    ensures
        sorted(a.insert(at, (key, value))),
        lookup(a, key) is None,
        forall|k: Seq<char>| #[trigger]
            lookup(a.insert(at, (key, value)), k) == (if k == key {
                Some(value)
            } else {
                lookup(a, k)
            }),
{
    let b = a.insert(at, (key, value));
    assert forall|i: int, j: int| 0 <= i < j < b.len() implies precedes(
        #[trigger] b[i].0,
        #[trigger] b[j].0,
    ) by {
        let ai = if i < at {
            i
        } else {
            i - 1
        };
        let aj = if j < at {
            j
        } else {
            j - 1
        };
        if i != at && j != at {
            assert(b[i] == a[ai] && b[j] == a[aj]);
        } else if i == at {
            assert(b[j] == a[aj]);
        } else {
            assert(b[i] == a[ai]);
        }
    }
    if has_key(a, key) {
        let i = choose|i: int| 0 <= i < a.len() && #[trigger] a[i].0 == key;
        lemma_precedes_irreflexive(key);
    }
    assert(b[at] == (key, value));
    lemma_lookup_at(b, at);
    assert forall|k: Seq<char>| k != key implies #[trigger] lookup(b, k) == lookup(a, k) by {
        if has_key(a, k) {
            let i = choose|i: int| 0 <= i < a.len() && #[trigger] a[i].0 == k;
            lemma_lookup_at(a, i);
            let j = if i < at {
                i
            } else {
                i + 1
            };
            assert(b[j] == a[i]);
            lemma_lookup_at(b, j);
        } else if has_key(b, k) {
            let j = choose|j: int| 0 <= j < b.len() && #[trigger] b[j].0 == k;
            if j < at {
                assert(a[j] == b[j]);
            } else {
                assert(a[j - 1] == b[j]);
            }
        }
    }
}

/// Replacing the value of an entry changes what its key alone leads to.
proof fn lemma_entry_replaced<T>(a: Seq<(Seq<char>, T)>, at: int, value: T)
    requires
        sorted(a),
        0 <= at < a.len(),
    ensures
        sorted(a.update(at, (a[at].0, value))),
        forall|k: Seq<char>| #[trigger]
            lookup(a.update(at, (a[at].0, value)), k) == (if k == a[at].0 {
                Some(value)
            } else {
                lookup(a, k)
            }),
{
    let key = a[at].0;
    let b = a.update(at, (key, value));
    assert(forall|i: int| 0 <= i < a.len() ==> #[trigger] b[i].0 == a[i].0);
    assert(forall|i: int| 0 <= i < a.len() && i != at ==> #[trigger] b[i] == a[i]);
    lemma_lookup_at(b, at);
    assert forall|k: Seq<char>| k != key implies #[trigger] lookup(b, k) == lookup(a, k) by {
        if has_key(a, k) {
            let i = choose|i: int| 0 <= i < a.len() && #[trigger] a[i].0 == k;
            lemma_lookup_at(a, i);
            lemma_lookup_at(b, i);
        } else if has_key(b, k) {
            let j = choose|j: int| 0 <= j < b.len() && #[trigger] b[j].0 == k;
            assert(a[j].0 == k);
        }
    }
}

/// A map with string keys, whose entries stand in the order of the keys.
#[derive(Debug, PartialEq)]
pub struct OrderedMap<V: View> {
    entries: Vec<(String, V)>,
}

impl<V: View> View for OrderedMap<V> {
    type V = Seq<(Seq<char>, V::V)>;

    closed spec fn view(&self) -> Seq<(Seq<char>, V::V)> {
        Seq::new(self.entries@.len(), |i: int| (self.entries@[i].0@, self.entries@[i].1@))
    }
}

impl<V: View> OrderedMap<V> {
    #[verifier::type_invariant]
    pub open spec fn ordered(self) -> bool {
        sorted(self@)
    }

    /// An empty map.
    pub fn new() -> (r: Self)
        ensures
            r@ == Seq::<(Seq<char>, V::V)>::empty(),
    {
        OrderedMap { entries: Vec::new() }
    }

    /// The number of entries.
    pub fn len(&self) -> (r: usize)
        ensures
            r == self@.len(),
    {
        self.entries.len()
    }

    /// Whether the map has no entry.
    pub fn is_empty(&self) -> (r: bool)
        ensures
            r == (self@.len() == 0),
    {
        self.entries.len() == 0
    }

    /// The key of the entry at a position.
    pub fn key(&self, i: usize) -> (r: &String)
        requires
            i < self@.len(),
        ensures
            r@ == self@[i as int].0,
    {
        &self.entries[i].0
    }

    /// The value of the entry at a position.
    pub fn value(&self, i: usize) -> (r: &V)
        requires
            i < self@.len(),
        ensures
            r@ == self@[i as int].1,
    {
        &self.entries[i].1
    }

    /// How many entries stand before the place of a key.
    fn position(&self, key: &str) -> (r: usize)
        ensures
            r <= self@.len(),
            forall|i: int| 0 <= i < r ==> precedes(#[trigger] self@[i].0, key@),
            forall|i: int| r <= i < self@.len() ==> !precedes(#[trigger] self@[i].0, key@),
    {
        proof {
            use_type_invariant(self);
        }
        let mut low: usize = 0;
        let mut high: usize = self.entries.len();
        while low < high
            invariant
                sorted(self@),
                low <= high <= self@.len(),
                forall|i: int| 0 <= i < low ==> precedes(#[trigger] self@[i].0, key@),
                forall|i: int| high <= i < self@.len() ==> !precedes(#[trigger] self@[i].0, key@),
            decreases high - low,
        {
            let middle: usize = low + (high - low) / 2;
            let order = compare(self.entries[middle].0.as_str(), key);
            assert(self.entries@[middle as int].0@ == self@[middle as int].0);
            match order {
                KeyOrder::Before => {
                    assert forall|i: int| 0 <= i < middle + 1 implies precedes(
                        #[trigger] self@[i].0,
                        key@,
                    ) by {
                        if i < middle {
                            lemma_precedes_transitive(self@[i].0, self@[middle as int].0, key@);
                        }
                    }
                    low = middle + 1;
                },
                _ => {
                    assert forall|i: int| middle <= i < self@.len() implies !precedes(
                        #[trigger] self@[i].0,
                        key@,
                    ) by {
                        if middle < i && precedes(self@[i].0, key@) {
                            lemma_precedes_transitive(self@[middle as int].0, self@[i].0, key@);
                        }
                    }
                    high = middle;
                },
            }
        }
        low
    }

    /// The value that stands with a key.
    pub fn get(&self, key: &str) -> (r: Option<&V>)
        ensures
            match r {
                Some(value) => lookup(self@, key@) == Some(value@),
                None => lookup(self@, key@) is None,
            },
    {
        proof {
            use_type_invariant(self);
        }
        let at = self.position(key);
        if at < self.entries.len() {
            let order = compare(self.entries[at].0.as_str(), key);
            assert(self.entries@[at as int].0@ == self@[at as int].0);
            if let KeyOrder::Same = order {
                proof {
                    lemma_lookup_at(self@, at as int);
                }
                return Some(&self.entries[at].1);
            }
        }
        proof {
            if has_key(self@, key@) {
                let i = choose|i: int| 0 <= i < self@.len() && #[trigger] self@[i].0 == key@;
                lemma_precedes_irreflexive(key@);
                assert(i >= at);
                assert(i != at);
                assert(precedes(self@[at as int].0, self@[i].0));
            }
        }
        None
    }

    /// Adds an entry whose key follows all the others.
    pub(crate) fn push_last(&mut self, key: String, value: V)
        requires
            forall|i: int| 0 <= i < old(self)@.len() ==> precedes(#[trigger] old(self)@[i].0, key@),
        ensures
            final(self)@ == old(self)@.push((key@, value@)),
    {
        proof {
            use_type_invariant(&*self);
        }
        let ghost before = self@;
        let ghost added = (key@, value@);
        let mut entries: Vec<(String, V)> = Vec::new();
        std::mem::swap(&mut entries, &mut self.entries);
        entries.push((key, value));
        let ghost after = Seq::new(entries@.len(), |i: int| (entries@[i].0@, entries@[i].1@));
        assert(after =~= before.push(added));
        self.entries = entries;
        assert(self@ =~= after);
    }

    /// Lets a key lead to a value, and hands back the value that it led to before.
    pub fn insert(&mut self, key: String, value: V) -> (r: Option<V>)
        ensures
            sorted(final(self)@),
            forall|k: Seq<char>| #[trigger]
                lookup(final(self)@, k) == (if k == key@ {
                    Some(value@)
                } else {
                    lookup(old(self)@, k)
                }),
            final(self)@.len() == old(self)@.len() + (if has_key(old(self)@, key@) {
                0int
            } else {
                1
            }),
            match r {
                Some(previous) => lookup(old(self)@, key@) == Some(previous@),
                None => lookup(old(self)@, key@) is None,
            },
    {
        proof {
            use_type_invariant(&*self);
        }
        let ghost before = self@;
        let at = self.position(key.as_str());
        let mut entries: Vec<(String, V)> = Vec::new();
        std::mem::swap(&mut entries, &mut self.entries);
        let ghost held = entries@;
        assert(before =~= Seq::new(held.len(), |i: int| (held[i].0@, held[i].1@)));
        let ghost wanted = key@;
        let ghost put = value@;
        let mut previous: Option<V> = None;
        let replaces = at < entries.len() && matches!(
            compare(entries[at].0.as_str(), key.as_str()),
            KeyOrder::Same
        );
        proof {
            if !replaces {
                assert forall|i: int| at <= i < before.len() implies precedes(
                    wanted,
                    #[trigger] before[i].0,
                ) by {
                    assert(precedes(wanted, before[at as int].0)) by {
                        lemma_order_total(before[at as int].0, wanted);
                    }
                    if at < i {
                        lemma_precedes_transitive(wanted, before[at as int].0, before[i].0);
                    }
                }
                lemma_entry_inserted(before, at as int, wanted, put);
            } else {
                lemma_entry_replaced(before, at as int, put);
                lemma_lookup_at(before, at as int);
            }
        }
        if replaces {
            let (_, replaced) = entries.remove(at);
            previous = Some(replaced);
        }
        entries.insert(at, (key, value));
        let ghost after = Seq::new(entries@.len(), |i: int| (entries@[i].0@, entries@[i].1@));
        proof {
            if replaces {
                assert(after =~= before.update(at as int, (wanted, put)));
            } else {
                assert(after =~= before.insert(at as int, (wanted, put)));
            }
        }
        self.entries = entries;
        assert(self@ =~= after);
        previous
    }
}

impl<V: View + Clone> Clone for OrderedMap<V> {
    /// Where cloning a value keeps what it stands for, cloning the map does too.
    fn clone(&self) -> (r: Self)
        ensures
            (forall|a: V, b: V| #[trigger] cloned(a, b) ==> a@ == b@) ==> r@ == self@,
    {
        proof {
            use_type_invariant(self);
        }
        let mut entries: Vec<(String, V)> = Vec::new();
        let mut i: usize = 0;
        while i < self.entries.len()
            invariant
                i <= self.entries@.len(),
                entries@.len() == i,
                forall|j: int|
                    0 <= j < i ==> (#[trigger] entries@[j]).0@ == self.entries@[j].0@ && cloned(
                        self.entries@[j].1,
                        entries@[j].1,
                    ),
            decreases self.entries@.len() - i,
        {
            entries.push((self.entries[i].0.clone(), self.entries[i].1.clone()));
            i = i + 1;
        }
        proof {
            let held = Seq::new(entries@.len(), |i: int| (entries@[i].0@, entries@[i].1@));
            assert forall|i: int, j: int| 0 <= i < j < held.len() implies precedes(
                #[trigger] held[i].0,
                #[trigger] held[j].0,
            ) by {
                assert(held[i].0 == self@[i].0 && held[j].0 == self@[j].0);
            }
            if forall|a: V, b: V| #[trigger] cloned(a, b) ==> a@ == b@ {
                assert(held =~= self@);
            }
        }
        OrderedMap { entries }
    }
}

} // verus!
