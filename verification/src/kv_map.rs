//! A finite map from string keys to values, kept as a list of entries in
//! which no key occurs twice.
//!
//! Its model is a `Map<Seq<char>, u64>`. The same fold that defines the model
//! also says what a list with repeated keys means: a later entry overwrites
//! an earlier one for the same key.

use vstd::prelude::*;
use crate::kv::{KeyValue, KeyValueView};

verus! {

/// The views of a sequence of entries, one for one.
pub open spec fn views(s: Seq<KeyValue>) -> Seq<KeyValueView> {
    s.map_values(|e: KeyValue| e@)
}

/// The map that results from writing the entries of `s` one after the other
/// into an empty map.
pub open spec fn fold_entries(s: Seq<KeyValueView>) -> Map<Seq<char>, u64>
    decreases s.len(),
{
    if s.len() == 0 {
        Map::empty()
    } else {
        fold_entries(s.drop_last()).insert(s.last().key, s.last().value)
    }
}

/// No key occurs at two positions of `s`.
pub open spec fn distinct_keys(s: Seq<KeyValueView>) -> bool {
    forall|i: int, j: int| 0 <= i < j < s.len() ==> s[i].key != s[j].key
}

/// Some position of `s` holds the key `k`.
pub open spec fn has_key(s: Seq<KeyValueView>, k: Seq<char>) -> bool {
    exists|i: int| 0 <= i < s.len() && #[trigger] s[i].key == k
}

/// Appending an entry writes it into the folded map.
pub proof fn lemma_fold_push(s: Seq<KeyValueView>, e: KeyValueView)
    ensures
        fold_entries(s.push(e)) == fold_entries(s).insert(e.key, e.value),
{
    assert(s.push(e).drop_last() =~= s);
}

/// The folded map is finite and holds exactly the keys that occur in `s`.
pub proof fn lemma_fold_domain(s: Seq<KeyValueView>)
    ensures
        fold_entries(s).dom().finite(),
        forall|k: Seq<char>| fold_entries(s).contains_key(k) <==> has_key(s, k),
    decreases s.len(),
{
    if s.len() > 0 {
        let p = s.drop_last();
        lemma_fold_domain(p);
        assert forall|k: Seq<char>| fold_entries(s).contains_key(k) <==> has_key(s, k) by {
            assert(fold_entries(p).contains_key(k) <==> has_key(p, k));
            if has_key(s, k) {
                let i = choose|i: int| 0 <= i < s.len() && #[trigger] s[i].key == k;
                if i < s.len() - 1 {
                    assert(p[i].key == k);
                }
            }
            if fold_entries(s).contains_key(k) {
                if k == s.last().key {
                    assert(s[s.len() - 1].key == k);
                } else {
                    assert(fold_entries(p).contains_key(k));
                    let i = choose|i: int| 0 <= i < p.len() && #[trigger] p[i].key == k;
                    assert(s[i].key == k);
                }
            }
        }
    }
}

/// The folded map gives for a key the value of its last occurrence in `s`.
pub proof fn lemma_fold_last_wins(s: Seq<KeyValueView>, i: int)
    requires
        0 <= i < s.len(),
        forall|j: int| i < j < s.len() ==> s[j].key != s[i].key,
    ensures
        fold_entries(s).contains_key(s[i].key),
        fold_entries(s)[s[i].key] == s[i].value,
    decreases s.len(),
{
    if i < s.len() - 1 {
        let p = s.drop_last();
        assert forall|j: int| i < j < p.len() implies p[j].key != p[i].key by {
            assert(p[j] == s[j]);
        }
        lemma_fold_last_wins(p, i);
    }
}

/// Where no key repeats, the folded map has one key for each entry.
pub proof fn lemma_fold_len(s: Seq<KeyValueView>)
    requires
        distinct_keys(s),
    ensures
        fold_entries(s).dom().finite(),
        fold_entries(s).len() == s.len(),
    decreases s.len(),
{
    lemma_fold_domain(s);
    if s.len() > 0 {
        let p = s.drop_last();
        lemma_fold_len(p);
        lemma_fold_domain(p);
        if has_key(p, s.last().key) {
            let i = choose|i: int| 0 <= i < p.len() && #[trigger] p[i].key == s.last().key;
            assert(s[i].key == s[s.len() - 1].key);
        }
    }
}

/// Replacing the value at one position of a list without repeated keys
/// writes the new value into the folded map.
pub proof fn lemma_fold_update(s: Seq<KeyValueView>, i: int, value: u64)
    requires
        0 <= i < s.len(),
        distinct_keys(s),
    ensures
        distinct_keys(s.update(i, KeyValueView { key: s[i].key, value })),
        fold_entries(s.update(i, KeyValueView { key: s[i].key, value })) == fold_entries(
            s,
        ).insert(s[i].key, value),
    decreases s.len(),
{
    let e = KeyValueView { key: s[i].key, value };
    let t = s.update(i, e);
    let p = s.drop_last();
    if i == s.len() - 1 {
        assert(t.drop_last() =~= p);
        assert(fold_entries(t) =~= fold_entries(s).insert(s[i].key, value));
    } else {
        lemma_fold_update(p, i, value);
        assert(t.drop_last() =~= p.update(i, e));
        assert(s[i].key != s[s.len() - 1].key);
        assert(fold_entries(t) =~= fold_entries(s).insert(s[i].key, value));
    }
}

/// A finite map from string keys to `u64` values.
pub struct KvMap {
    entries: Vec<KeyValue>,
}

impl View for KvMap {
    type V = Map<Seq<char>, u64>;

    closed spec fn view(&self) -> Map<Seq<char>, u64> {
        fold_entries(views(self.entries@))
    }
}

impl KvMap {
    #[verifier::type_invariant]
    spec fn no_key_twice(self) -> bool {
        distinct_keys(views(self.entries@))
    }

    /// The entries in the order in which their keys were first written.
    pub closed spec fn pairs(&self) -> Seq<KeyValueView> {
        views(self.entries@)
    }

    /// The model is the fold of the entries.
    pub proof fn lemma_view_is_fold(&self)
        ensures
            self@ == fold_entries(self.pairs()),
    {
    }

    /// An empty map.
    pub fn new() -> (m: Self)
        ensures
            m@ == Map::<Seq<char>, u64>::empty(),
            m.pairs() == Seq::<KeyValueView>::empty(),
    {
        let m = KvMap { entries: Vec::new() };
        assert(views(m.entries@) =~= Seq::<KeyValueView>::empty());
        m
    }

    /// The number of keys.
    pub fn len(&self) -> (n: usize)
        ensures
            n == self@.len(),
            n == self.pairs().len(),
            self@.dom().finite(),
    {
        proof {
            use_type_invariant(self);
            lemma_fold_len(views(self.entries@));
        }
        self.entries.len()
    }

    /// The position of `key` among the entries, if it is there.
    fn position(entries: &Vec<KeyValue>, key: &String) -> (r: Option<usize>)
        ensures
            match r {
                Some(i) => i < entries.len() && entries[i as int].key@ == key@,
                None => !has_key(views(entries@), key@),
            },
    {
        let mut i: usize = 0;
        while i < entries.len()
            invariant
                i <= entries.len(),
                forall|j: int| 0 <= j < i ==> entries[j].key@ != key@,
            decreases entries.len() - i,
        {
            if entries[i].key == *key {
                return Some(i);
            }
            i += 1;
        }
        assert forall|j: int| 0 <= j < views(entries@).len() implies #[trigger] views(
            entries@,
        )[j].key != key@ by {
            assert(views(entries@)[j] == entries[j]@);
        }
        None
    }

    /// The value stored for `key`, if there is one.
    pub fn get(&self, key: &String) -> (r: Option<u64>)
        ensures
            r == (if self@.contains_key(key@) {
                Some(self@[key@])
            } else {
                None
            }),
    {
        proof {
            use_type_invariant(self);
            lemma_fold_domain(views(self.entries@));
        }
        match Self::position(&self.entries, key) {
            Some(i) => {
                proof {
                    let s = views(self.entries@);
                    assert(s[i as int] == self.entries[i as int]@);
                    lemma_fold_last_wins(s, i as int);
                }
                Some(self.entries[i].value)
            },
            None => None,
        }
    }

    /// Whether a value is stored for `key`.
    pub fn contains_key(&self, key: &String) -> (r: bool)
        ensures
            r == self@.contains_key(key@),
    {
        self.get(key).is_some()
    }

    /// Stores `value` for `key`, overwriting what was stored for it before.
    pub fn insert(&mut self, key: String, value: u64)
        ensures
            final(self)@ == old(self)@.insert(key@, value),
    {
        proof {
            use_type_invariant(&*self);
        }
        let mut entries: Vec<KeyValue> = Vec::new();
        assert(views(entries@) =~= Seq::<KeyValueView>::empty());
        std::mem::swap(&mut entries, &mut self.entries);
        let ghost before = views(entries@);
        match Self::position(&entries, &key) {
            Some(i) => {
                proof {
                    assert(before[i as int] == entries[i as int]@);
                    lemma_fold_update(before, i as int, value);
                }
                entries.set(i, KeyValue { key, value });
                assert(views(entries@) =~= before.update(
                    i as int,
                    KeyValueView { key: before[i as int].key, value },
                ));
            },
            None => {
                let ghost e = KeyValueView { key: key@, value };
                proof {
                    lemma_fold_push(before, e);
                }
                entries.push(KeyValue { key, value });
                assert(views(entries@) =~= before.push(e));
                assert(distinct_keys(views(entries@))) by {
                    assert forall|i: int, j: int| 0 <= i < j < before.push(e).len() implies before.push(
                        e,
                    )[i].key != before.push(e)[j].key by {
                        if j == before.len() {
                            assert(before[i].key != key@);
                        }
                    }
                }
            },
        }
        self.entries = entries;
    }

    /// Writes every entry of `other` into this map; where both hold a key,
    /// the value of `other` stays.
    pub fn merge(&mut self, other: &KvMap)
        ensures
            final(self)@ == old(self)@.union_prefer_right(other@),
    {
        let n = other.entries.len();
        let ghost s = views(other.entries@);
        let mut i: usize = 0;
        assert(s.take(0) =~= Seq::<KeyValueView>::empty());
        assert(self@ =~= old(self)@.union_prefer_right(fold_entries(s.take(0))));
        while i < n
            invariant
                i <= n,
                n == other.entries.len(),
                s == views(other.entries@),
                self@ == old(self)@.union_prefer_right(fold_entries(s.take(i as int))),
            decreases n - i,
        {
            let e = &other.entries[i];
            proof {
                assert(s.take(i as int + 1) =~= s.take(i as int).push(s[i as int]));
                lemma_fold_push(s.take(i as int), s[i as int]);
                assert(s[i as int] == e@);
            }
            self.insert(e.key.clone(), e.value);
            assert(self@ =~= old(self)@.union_prefer_right(fold_entries(s.take(i as int + 1))));
            i += 1;
        }
        assert(s.take(n as int) =~= s);
    }

    /// The map that results from writing `entries` in order into an empty
    /// map: a later entry overwrites an earlier one for the same key.
    pub fn from_entries(entries: &[KeyValue]) -> (m: Self)
        ensures
            m@ == fold_entries(views(entries@)),
    {
        let mut m = KvMap::new();
        let ghost s = views(entries@);
        let mut i: usize = 0;
        assert(s.take(0) =~= Seq::<KeyValueView>::empty());
        while i < entries.len()
            invariant
                i <= entries.len(),
                s == views(entries@),
                m@ == fold_entries(s.take(i as int)),
            decreases entries.len() - i,
        {
            let e = &entries[i];
            proof {
                assert(s.take(i as int + 1) =~= s.take(i as int).push(s[i as int]));
                lemma_fold_push(s.take(i as int), s[i as int]);
                assert(s[i as int] == e@);
            }
            m.insert(e.key.clone(), e.value);
            i += 1;
        }
        assert(s.take(entries.len() as int) =~= s);
        m
    }

    /// The entries as a list in which no key occurs twice.
    pub fn to_vec(&self) -> (v: Vec<KeyValue>)
        ensures
            views(v@) == self.pairs(),
            distinct_keys(views(v@)),
            fold_entries(views(v@)) == self@,
    {
        proof {
            use_type_invariant(self);
        }
        let mut v: Vec<KeyValue> = Vec::new();
        let mut i: usize = 0;
        while i < self.entries.len()
            invariant
                i <= self.entries.len(),
                views(v@) =~= views(self.entries@).take(i as int),
            decreases self.entries.len() - i,
        {
            let ghost before = views(v@);
            v.push(self.entries[i].clone());
            assert(views(v@) =~= before.push(self.entries[i as int]@));
            i += 1;
        }
        assert(views(self.entries@).take(self.entries.len() as int) =~= views(self.entries@));
        v
    }
}

impl Clone for KvMap {
    fn clone(&self) -> (m: Self)
        ensures
            m@ == self@,
            m.pairs() == self.pairs(),
    {
        proof {
            use_type_invariant(self);
        }
        let entries = self.to_vec();
        KvMap { entries }
    }
}

} // verus!
