//! A basic map from keys to values, specified against a mathematical map.
//!
//! Entries are kept in insertion order and keys are compared by their
//! abstract value, through the `MapKey` trait. Every operation's contract is
//! stated over the map's mathematical contents, so that inserting, looking
//! up and removing mean exactly what they mean on a `Map`.

use vstd::prelude::*;
use vstd::seq_lib::*;
use vstd::string::StrSliceExecFns;

verus! {

/// A key type whose values can be compared at run time exactly as the map's
/// contracts compare them: by their abstract (`View`) value.
///
/// Two equal keys must answer `true`, two different ones `false` — the
/// run-time comparison may not diverge from the abstraction. That is the
/// whole demand; a type with copy semantics and a faithful view gets it for
/// free from `==`.
pub trait MapKey: View + Sized {
    /// Decide whether `self` and `other` are the same key.
    fn key_eq(&self, other: &Self) -> (r: bool)
        ensures
            r == (self@ == other@),
    ;
}

impl MapKey for u32 {
    fn key_eq(&self, other: &Self) -> (r: bool)
        ensures
            r == (self@ == other@),
    {
        *self == *other
    }
}

impl MapKey for u64 {
    fn key_eq(&self, other: &Self) -> (r: bool)
        ensures
            r == (self@ == other@),
    {
        *self == *other
    }
}

impl MapKey for usize {
    fn key_eq(&self, other: &Self) -> (r: bool)
        ensures
            r == (self@ == other@),
    {
        *self == *other
    }
}

impl MapKey for i32 {
    fn key_eq(&self, other: &Self) -> (r: bool)
        ensures
            r == (self@ == other@),
    {
        *self == *other
    }
}

impl MapKey for i64 {
    fn key_eq(&self, other: &Self) -> (r: bool)
        ensures
            r == (self@ == other@),
    {
        *self == *other
    }
}

/// Character-by-character string comparison, exact against the strings'
/// abstract character sequences.
fn str_eq(a: &str, b: &str) -> (r: bool)
    ensures
        r == (a@ == b@),
{
    let a_len = a.unicode_len();
    let b_len = b.unicode_len();
    if a_len != b_len {
        return false;
    }
    let mut i: usize = 0;
    while i < a_len
        invariant
            i <= a_len,
            a_len == a@.len(),
            b_len == b@.len(),
            a_len == b_len,
            forall|j: int| 0 <= j < i ==> a@[j] == b@[j],
        decreases a_len - i,
    {
        if a.get_char(i) != b.get_char(i) {
            return false;
        }
        i = i + 1;
    }
    proof {
        assert(a@ =~= b@);
    }
    true
}

impl<'a> MapKey for &'a str {
    fn key_eq(&self, other: &Self) -> (r: bool)
        ensures
            r == (self@ == other@),
    {
        str_eq(*self, *other)
    }
}

impl MapKey for String {
    fn key_eq(&self, other: &Self) -> (r: bool)
        ensures
            r == (self@ == other@),
    {
        str_eq(self.as_str(), other.as_str())
    }
}

/// No two entries carry the same key.
pub open spec fn distinct_keys<K: View, Val>(s: Seq<(K, Val)>) -> bool {
    forall|i: int, j: int| 0 <= i < j < s.len() ==> s[i].0@ != s[j].0@
}

/// The mathematical map that a sequence of entries stands for.
pub open spec fn assoc_map<K: View, Val>(s: Seq<(K, Val)>) -> Map<<K as View>::V, Val>
    decreases s.len(),
{
    if s.len() == 0 {
        Map::empty()
    } else {
        assoc_map(s.drop_last()).insert(s.last().0@, s.last().1)
    }
}

/// Each entry of a duplicate-free sequence is found in its map, under its
/// key's abstract value, with its own value.
proof fn lemma_assoc_map_index<K: View, Val>(s: Seq<(K, Val)>, i: int)
    requires
        distinct_keys(s),
        0 <= i < s.len(),
    ensures
        assoc_map(s).contains_key(s[i].0@),
        assoc_map(s)[s[i].0@] == s[i].1,
    decreases s.len(),
{
    if i < s.len() - 1 {
        lemma_assoc_map_index(s.drop_last(), i);
    }
}

/// A key under which no entry stands is absent from the map.
proof fn lemma_assoc_map_absent<K: View, Val>(s: Seq<(K, Val)>, k: <K as View>::V)
    requires
        forall|i: int| 0 <= i < s.len() ==> s[i].0@ != k,
    ensures
        !assoc_map(s).contains_key(k),
    decreases s.len(),
{
    if s.len() > 0 {
        lemma_assoc_map_absent(s.drop_last(), k);
    }
}

/// A key present in the map is the key of some entry.
proof fn lemma_assoc_map_contains<K: View, Val>(s: Seq<(K, Val)>, k: <K as View>::V)
    requires
        assoc_map(s).contains_key(k),
    ensures
        exists|i: int| 0 <= i < s.len() && s[i].0@ == k,
    decreases s.len(),
{
    if s.len() > 0 && s.last().0@ != k {
        lemma_assoc_map_contains(s.drop_last(), k);
    }
}

/// A duplicate-free sequence stands for a map with exactly one binding per
/// entry.
proof fn lemma_assoc_map_len<K: View, Val>(s: Seq<(K, Val)>)
    requires
        distinct_keys(s),
    ensures
        assoc_map(s).dom().finite(),
        assoc_map(s).dom().len() == s.len(),
    decreases s.len(),
{
    if s.len() > 0 {
        lemma_assoc_map_len(s.drop_last());
        lemma_assoc_map_absent(s.drop_last(), s.last().0@);
    }
}

/// Replacing the entry at `i` by one carrying the same key replaces that
/// one binding of the map and nothing else.
proof fn lemma_assoc_map_update_entry<K: View, Val>(s: Seq<(K, Val)>, i: int, p: (K, Val))
    requires
        distinct_keys(s),
        0 <= i < s.len(),
        p.0@ == s[i].0@,
    ensures
        distinct_keys(s.update(i, p)),
        assoc_map(s.update(i, p)) == assoc_map(s).insert(s[i].0@, p.1),
{
    let s2 = s.update(i, p);
    let k = s[i].0@;
    let m1 = assoc_map(s2);
    let m2 = assoc_map(s).insert(k, p.1);
    assert forall|j: int| 0 <= j < s.len() implies s2[j].0@ == s[j].0@ by {}
    assert forall|k2: <K as View>::V| #[trigger] m1.dom().contains(k2) implies m2.dom().contains(
        k2,
    ) && m1[k2] == m2[k2] by {
        lemma_assoc_map_contains(s2, k2);
        let j = choose|j: int| 0 <= j < s2.len() && s2[j].0@ == k2;
        lemma_assoc_map_index(s2, j);
        if j == i {
            assert(k2 == k);
        } else {
            assert(s[j].0@ != k);
            lemma_assoc_map_index(s, j);
        }
    }
    assert forall|k2: <K as View>::V| #[trigger] m2.dom().contains(k2) implies m1.dom().contains(
        k2,
    ) by {
        if k2 == k {
            lemma_assoc_map_index(s2, i);
        } else {
            lemma_assoc_map_contains(s, k2);
            let j = choose|j: int| 0 <= j < s.len() && s[j].0@ == k2;
            lemma_assoc_map_index(s2, j);
        }
    }
    assert(m1 =~= m2);
}

/// Removing the entry at `i` removes that one binding of the map and
/// nothing else.
proof fn lemma_assoc_map_remove<K: View, Val>(s: Seq<(K, Val)>, i: int)
    requires
        distinct_keys(s),
        0 <= i < s.len(),
    ensures
        distinct_keys(s.remove(i)),
        assoc_map(s.remove(i)) == assoc_map(s).remove(s[i].0@),
{
    let s2 = s.remove(i);
    let k = s[i].0@;
    s.remove_ensures(i);
    assert forall|j1: int, j2: int| 0 <= j1 < j2 < s2.len() implies s2[j1].0@ != s2[j2].0@ by {
        if j1 < i {
            assert(s2[j1] == s[j1]);
        } else {
            assert(s2[j1] == s[j1 + 1]);
        }
        if j2 < i {
            assert(s2[j2] == s[j2]);
        } else {
            assert(s2[j2] == s[j2 + 1]);
        }
    }
    let m1 = assoc_map(s2);
    let m2 = assoc_map(s).remove(k);
    assert forall|k2: <K as View>::V| #[trigger] m1.dom().contains(k2) implies m2.dom().contains(
        k2,
    ) && m1[k2] == m2[k2] by {
        lemma_assoc_map_contains(s2, k2);
        let j = choose|j: int| 0 <= j < s2.len() && s2[j].0@ == k2;
        lemma_assoc_map_index(s2, j);
        if j < i {
            lemma_assoc_map_index(s, j);
            assert(k2 != k);
        } else {
            lemma_assoc_map_index(s, j + 1);
            assert(k2 != k);
        }
    }
    assert forall|k2: <K as View>::V| #[trigger] m2.dom().contains(k2) implies m1.dom().contains(
        k2,
    ) by {
        lemma_assoc_map_contains(s, k2);
        let j = choose|j: int| 0 <= j < s.len() && s[j].0@ == k2;
        assert(j != i);
        if j < i {
            lemma_assoc_map_index(s2, j);
        } else {
            assert(s2[j - 1] == s[j]);
            lemma_assoc_map_index(s2, j - 1);
        }
    }
    assert(m1 =~= m2);
}

/// A basic map from keys to values.
///
/// Keys are compared by their abstract value (`MapKey`); no two entries
/// carry the same key. Entries stand in insertion order, which is the order
/// iteration yields them in.
pub struct LinkedHashMap<K, Val> {
    entries: Vec<(K, Val)>,
}

impl<K: MapKey, Val> LinkedHashMap<K, Val> {
    /// The entries in insertion order.
    pub closed spec fn kv_seq(self) -> Seq<(K, Val)> {
        self.entries@
    }

    /// No two entries carry the same key. Holds from construction on and is
    /// preserved by every operation.
    pub closed spec fn wf(self) -> bool {
        distinct_keys(self.entries@)
    }

    /// The mathematical contents: what this map binds to what.
    pub closed spec fn contents(self) -> Map<<K as View>::V, Val> {
        assoc_map(self.entries@)
    }

    /// Creates an empty `LinkedHashMap`.
    pub fn new() -> (map: LinkedHashMap<K, Val>)
        ensures
            map.wf(),
            map.contents() == Map::<<K as View>::V, Val>::empty(),
            map.kv_seq().len() == 0,
    {
        LinkedHashMap { entries: Vec::new() }
    }

    /// Returns the number of elements in the map.
    pub fn len(&self) -> (n: usize)
        requires
            self.wf(),
        ensures
            n == self.kv_seq().len(),
            n == self.contents().dom().len(),
    {
        proof {
            lemma_assoc_map_len(self.entries@);
        }
        self.entries.len()
    }

    /// Returns true if the map contains no elements.
    pub fn is_empty(&self) -> (empty: bool)
        requires
            self.wf(),
        ensures
            empty == (self.kv_seq().len() == 0),
            empty == (self.contents().dom().len() == 0),
    {
        proof {
            lemma_assoc_map_len(self.entries@);
        }
        self.entries.is_empty()
    }

    /// Where the entry carrying `key` stands, if anywhere.
    fn find_index(&self, key: &K) -> (found: Option<usize>)
        ensures
            match found {
                Some(i) => i < self.entries@.len() && self.entries@[i as int].0@ == key@,
                None => forall|j: int| 0 <= j < self.entries@.len() ==> self.entries@[j].0@ != key@,
            },
    {
        let n = self.entries.len();
        let mut i: usize = 0;
        while i < n
            invariant
                i <= n,
                n == self.entries@.len(),
                forall|j: int| 0 <= j < i ==> self.entries@[j].0@ != key@,
            decreases n - i,
        {
            let pair = vstd::std_specs::vec::vec_index(&self.entries, i);
            if pair.0.key_eq(key) {
                return Some(i);
            }
            i = i + 1;
        }
        None
    }

    /// Write access to the value of the entry at `i`: what the caller
    /// leaves behind the returned reference is what that entry's key is
    /// then bound to.
    fn value_at_mut(&mut self, i: usize) -> (v: &mut Val)
        requires
            old(self).wf(),
            i < old(self).entries@.len(),
        ensures
            *v == old(self).entries@[i as int].1,
            final(self).wf(),
            final(self).entries@ == old(self).entries@.update(
                i as int,
                (old(self).entries@[i as int].0, *final(v)),
            ),
            final(self).contents() == old(self).contents().insert(
                old(self).entries@[i as int].0@,
                *final(v),
            ),
    {
        proof {
            assert forall|p2: (K, Val)|
                p2.0@ == self.entries@[i as int].0@ implies (#[trigger] assoc_map(
                self.entries@.update(i as int, p2),
            )) == assoc_map(self.entries@).insert(self.entries@[i as int].0@, p2.1)
                && distinct_keys(self.entries@.update(i as int, p2)) by {
                lemma_assoc_map_update_entry(self.entries@, i as int, p2);
            }
        }
        let pair = vstd::std_specs::vec::vec_index_mut(&mut self.entries, i);
        &mut pair.1
    }

    /// Inserts a key-value pair into the map.
    ///
    /// If the map did not have this key present, `None` is returned and the
    /// entry joins the end of the insertion order. If the map did have this
    /// key present, the value is updated and the old value is returned; the
    /// key itself and the entry's place in the order are not updated.
    pub fn insert(&mut self, key: K, value: Val) -> (previous: Option<Val>)
        requires
            old(self).wf(),
        ensures
            final(self).wf(),
            final(self).contents() == old(self).contents().insert(key@, value),
            match previous {
                Some(v) => old(self).contents().contains_key(key@) && v == old(self).contents()[key@]
                    && final(self).kv_seq().len() == old(self).kv_seq().len() && (forall|j: int|
                    0 <= j < old(self).kv_seq().len() ==> #[trigger] final(self).kv_seq()[j].0
                        == old(self).kv_seq()[j].0),
                None => !old(self).contents().contains_key(key@) && final(self).kv_seq() == old(
                    self,
                ).kv_seq().push((key, value)),
            },
    {
        match self.find_index(&key) {
            Some(i) => {
                proof {
                    lemma_assoc_map_index(self.entries@, i as int);
                    lemma_assoc_map_update_entry(
                        self.entries@,
                        i as int,
                        (self.entries@[i as int].0, value),
                    );
                }
                let pair = vstd::std_specs::vec::vec_index_mut(&mut self.entries, i);
                let mut value = value;
                core::mem::swap(&mut pair.1, &mut value);
                proof {
                    assert(self.entries@ =~= old(self).entries@.update(
                        i as int,
                        (old(self).entries@[i as int].0, pair.1),
                    ));
                }
                Some(value)
            },
            None => {
                proof {
                    lemma_assoc_map_absent(self.entries@, key@);
                }
                self.entries.push((key, value));
                proof {
                    assert(self.entries@.drop_last() =~= old(self).entries@);
                }
                None
            },
        }
    }

    /// Returns a reference to the value corresponding to the key, if the
    /// key is in the map.
    pub fn get(&self, key: &K) -> (result: Option<&Val>)
        requires
            self.wf(),
        ensures
            match result {
                Some(v) => self.contents().contains_key(key@) && *v == self.contents()[key@],
                None => !self.contents().contains_key(key@),
            },
    {
        match self.find_index(key) {
            Some(i) => {
                proof {
                    lemma_assoc_map_index(self.entries@, i as int);
                }
                let pair = vstd::std_specs::vec::vec_index(&self.entries, i);
                Some(&pair.1)
            },
            None => {
                proof {
                    lemma_assoc_map_absent(self.entries@, key@);
                }
                None
            },
        }
    }

    /// Removes a key from the map, returning the value at the key if the
    /// key was previously in the map. The other entries keep their order.
    pub fn remove(&mut self, key: &K) -> (removed: Option<Val>)
        requires
            old(self).wf(),
        ensures
            final(self).wf(),
            final(self).contents() == old(self).contents().remove(key@),
            match removed {
                Some(v) => old(self).contents().contains_key(key@) && v == old(self).contents()[key@]
                    && (exists|i: int|
                    0 <= i < old(self).kv_seq().len() && old(self).kv_seq()[i].0@ == key@
                        && final(self).kv_seq() == old(self).kv_seq().remove(i)),
                None => !old(self).contents().contains_key(key@) && final(self).kv_seq() == old(
                    self,
                ).kv_seq(),
            },
    {
        match self.find_index(key) {
            Some(i) => {
                proof {
                    lemma_assoc_map_index(self.entries@, i as int);
                    lemma_assoc_map_remove(self.entries@, i as int);
                }
                let pair = self.entries.remove(i);
                proof {
                    assert((i as int) < old(self).kv_seq().len());
                    assert(old(self).kv_seq()[i as int].0@ == key@);
                    assert(self.entries@ == old(self).kv_seq().remove(i as int));
                }
                Some(pair.1)
            },
            None => {
                proof {
                    lemma_assoc_map_absent(self.entries@, key@);
                }
                None
            },
        }
    }

    /// Returns true if the map contains a value for the specified key.
    pub fn contains_key(&self, key: &K) -> (present: bool)
        requires
            self.wf(),
        ensures
            present == self.contents().contains_key(key@),
    {
        match self.find_index(key) {
            Some(i) => {
                proof {
                    lemma_assoc_map_index(self.entries@, i as int);
                }
                true
            },
            None => {
                proof {
                    lemma_assoc_map_absent(self.entries@, key@);
                }
                false
            },
        }
    }

    /// An iterator over the entries, in insertion order.
    pub fn iter(&self) -> (it: Iter<'_, K, Val>)
        ensures
            it.remaining() == self.kv_seq(),
    {
        proof {
            assert(self.entries@.skip(0) =~= self.entries@);
        }
        Iter { map: self, cursor: 0 }
    }

    /// An owning iterator over the entries, in insertion order.
    pub fn into_iter(self) -> (it: IntoIter<K, Val>)
        ensures
            it.remaining() == self.kv_seq(),
    {
        IntoIter { entries: self.entries }
    }

    /// Gets the given key's corresponding entry in the map: occupied if the
    /// key is bound, vacant if it is not. The entry carries the key; the
    /// entry's operations take the map again and work on the binding.
    pub fn entry(&self, key: K) -> (e: Entry<K>)
        requires
            self.wf(),
        ensures
            e.spec_key() == key,
            (e is Occupied) == self.contents().contains_key(key@),
    {
        if self.contains_key(&key) {
            Entry::Occupied(OccupiedEntry { key })
        } else {
            Entry::Vacant(VacantEntry { key })
        }
    }
}

/// An iterator over the entries of a [`LinkedHashMap`], yielding them in
/// insertion order.
pub struct Iter<'a, K, Val> {
    map: &'a LinkedHashMap<K, Val>,
    cursor: usize,
}

impl<'a, K: MapKey, Val> Iter<'a, K, Val> {
    /// The entries not yet yielded, in order.
    pub closed spec fn remaining(self) -> Seq<(K, Val)> {
        if self.cursor as int <= self.map.kv_seq().len() {
            self.map.kv_seq().skip(self.cursor as int)
        } else {
            Seq::empty()
        }
    }

    /// The next entry, if one is left: references to its key and value.
    pub fn next(&mut self) -> (item: Option<(&'a K, &'a Val)>)
        ensures
            old(self).remaining().len() > 0 ==> ({
                &&& item is Some
                &&& *item.unwrap().0 == old(self).remaining()[0].0
                &&& *item.unwrap().1 == old(self).remaining()[0].1
                &&& final(self).remaining() == old(self).remaining().skip(1)
            }),
            old(self).remaining().len() == 0 ==> item is None && *final(self) == *old(self),
    {
        if self.cursor < self.map.entries.len() {
            let pair = vstd::std_specs::vec::vec_index(&self.map.entries, self.cursor);
            self.cursor = self.cursor + 1;
            proof {
                assert(self.map.entries@.skip(self.cursor as int) =~= old(
                    self,
                ).remaining().skip(1));
            }
            Some((&pair.0, &pair.1))
        } else {
            None
        }
    }
}

/// An owning iterator over the entries of a [`LinkedHashMap`], yielding
/// them in insertion order.
pub struct IntoIter<K, Val> {
    entries: Vec<(K, Val)>,
}

impl<K: MapKey, Val> IntoIter<K, Val> {
    /// The entries not yet yielded, in order.
    pub closed spec fn remaining(self) -> Seq<(K, Val)> {
        self.entries@
    }

    /// The next entry, if one is left, moved out.
    pub fn next(&mut self) -> (item: Option<(K, Val)>)
        ensures
            old(self).remaining().len() > 0 ==> ({
                &&& item == Some(old(self).remaining()[0])
                &&& final(self).remaining() == old(self).remaining().skip(1)
            }),
            old(self).remaining().len() == 0 ==> item is None && *final(self) == *old(self),
    {
        if self.entries.len() > 0 {
            let pair = self.entries.remove(0);
            proof {
                assert(old(self).entries@.remove(0) =~= old(self).remaining().skip(1));
            }
            Some(pair)
        } else {
            None
        }
    }
}

/// A view into a single occupied binding of a [`LinkedHashMap`].
pub struct OccupiedEntry<K> {
    key: K,
}

/// A view into a single vacant slot of a [`LinkedHashMap`].
pub struct VacantEntry<K> {
    key: K,
}

/// A view into a single binding of a [`LinkedHashMap`], occupied or vacant.
/// It carries the key it was made for; its operations take the map and work
/// on that key's binding.
pub enum Entry<K> {
    Occupied(OccupiedEntry<K>),
    Vacant(VacantEntry<K>),
}

impl<K: MapKey> Entry<K> {
    /// The key this entry was made for.
    pub closed spec fn spec_key(self) -> K {
        match self {
            Entry::Occupied(e) => e.key,
            Entry::Vacant(e) => e.key,
        }
    }

    /// A reference to the entry's key.
    pub fn key(&self) -> (k: &K)
        ensures
            *k == self.spec_key(),
    {
        match self {
            Entry::Occupied(e) => &e.key,
            Entry::Vacant(e) => &e.key,
        }
    }

    /// Ensure the entry's key is bound, binding it to `value` where it was
    /// not, and hand back write access to the binding: what the caller
    /// leaves behind the returned reference is what the map then binds the
    /// key to.
    pub fn or_insert<Val>(self, map: &mut LinkedHashMap<K, Val>, value: Val) -> (v: &'_ mut Val)
        requires
            old(map).wf(),
        ensures
            *v == if old(map).contents().contains_key(self.spec_key()@) {
                old(map).contents()[self.spec_key()@]
            } else {
                value
            },
            final(map).wf(),
            final(map).contents() == old(map).contents().insert(self.spec_key()@, *final(v)),
    {
        let key = match self {
            Entry::Occupied(e) => e.key,
            Entry::Vacant(e) => e.key,
        };
        match map.find_index(&key) {
            Some(i) => {
                proof {
                    lemma_assoc_map_index(map.entries@, i as int);
                }
                map.value_at_mut(i)
            },
            None => {
                proof {
                    lemma_assoc_map_absent(map.entries@, key@);
                }
                map.entries.push((key, value));
                let i = map.entries.len() - 1;
                proof {
                    assert(map.entries@.drop_last() =~= old(map).entries@);
                    assert forall|v2: Val| (#[trigger] assoc_map(map.entries@).insert(key@, v2))
                        == old(map).contents().insert(key@, v2) by {
                        assert(old(map).contents().insert(key@, value).insert(key@, v2) =~= old(
                            map,
                        ).contents().insert(key@, v2));
                    }
                }
                map.value_at_mut(i)
            },
        }
    }

    /// Ensure the entry's key is bound — where it was not, bind it to what
    /// `f` produces (`f` is called only then) — and hand back write access
    /// to the binding.
    pub fn or_insert_with<Val, F: FnOnce() -> Val>(
        self,
        map: &mut LinkedHashMap<K, Val>,
        f: F,
    ) -> (v: &'_ mut Val)
        requires
            old(map).wf(),
            !old(map).contents().contains_key(self.spec_key()@) ==> f.requires(()),
        ensures
            old(map).contents().contains_key(self.spec_key()@) ==> *v == old(map).contents()[self.spec_key()@],
            !old(map).contents().contains_key(self.spec_key()@) ==> f.ensures((), *v),
            final(map).wf(),
            final(map).contents() == old(map).contents().insert(self.spec_key()@, *final(v)),
    {
        let key = match self {
            Entry::Occupied(e) => e.key,
            Entry::Vacant(e) => e.key,
        };
        match map.find_index(&key) {
            Some(i) => {
                proof {
                    lemma_assoc_map_index(map.entries@, i as int);
                }
                map.value_at_mut(i)
            },
            None => {
                proof {
                    lemma_assoc_map_absent(map.entries@, key@);
                }
                let value = f();
                let ghost produced = value;
                map.entries.push((key, value));
                let i = map.entries.len() - 1;
                proof {
                    assert(map.entries@.drop_last() =~= old(map).entries@);
                    assert forall|v2: Val| (#[trigger] assoc_map(map.entries@).insert(key@, v2))
                        == old(map).contents().insert(key@, v2) by {
                        assert(old(map).contents().insert(key@, produced).insert(key@, v2) =~= old(
                            map,
                        ).contents().insert(key@, v2));
                    }
                }
                map.value_at_mut(i)
            },
        }
    }

    /// Ensure the entry's key is bound — where it was not, bind it to what
    /// `f` makes of the key (`f` is called only then) — and hand back write
    /// access to the binding.
    pub fn or_insert_with_key<Val, F: FnOnce(&K) -> Val>(
        self,
        map: &mut LinkedHashMap<K, Val>,
        f: F,
    ) -> (v: &'_ mut Val)
        requires
            old(map).wf(),
            !old(map).contents().contains_key(self.spec_key()@) ==> f.requires(
                (&self.spec_key(),),
            ),
        ensures
            old(map).contents().contains_key(self.spec_key()@) ==> *v == old(map).contents()[self.spec_key()@],
            !old(map).contents().contains_key(self.spec_key()@) ==> f.ensures(
                (&self.spec_key(),),
                *v,
            ),
            final(map).wf(),
            final(map).contents() == old(map).contents().insert(self.spec_key()@, *final(v)),
    {
        let key = match self {
            Entry::Occupied(e) => e.key,
            Entry::Vacant(e) => e.key,
        };
        match map.find_index(&key) {
            Some(i) => {
                proof {
                    lemma_assoc_map_index(map.entries@, i as int);
                }
                map.value_at_mut(i)
            },
            None => {
                proof {
                    lemma_assoc_map_absent(map.entries@, key@);
                }
                let value = f(&key);
                let ghost produced = value;
                map.entries.push((key, value));
                let i = map.entries.len() - 1;
                proof {
                    assert(map.entries@.drop_last() =~= old(map).entries@);
                    assert forall|v2: Val| (#[trigger] assoc_map(map.entries@).insert(key@, v2))
                        == old(map).contents().insert(key@, v2) by {
                        assert(old(map).contents().insert(key@, produced).insert(key@, v2) =~= old(
                            map,
                        ).contents().insert(key@, v2));
                    }
                }
                map.value_at_mut(i)
            },
        }
    }

    /// Ensure the entry's key is bound — where it was not, bind it to the
    /// value type's default — and hand back write access to the binding.
    pub fn or_default<Val: Default>(self, map: &mut LinkedHashMap<K, Val>) -> (v: &'_ mut Val)
        requires
            old(map).wf(),
        ensures
            old(map).contents().contains_key(self.spec_key()@) ==> *v == old(map).contents()[self.spec_key()@],
            final(map).wf(),
            final(map).contents() == old(map).contents().insert(self.spec_key()@, *final(v)),
    {
        self.or_insert(map, Default::default())
    }

    /// If the entry's key is bound, replace its value by what `f` makes of
    /// it; a vacant entry is left alone and `f` is not called. The entry is
    /// handed back for further use, carrying the same key.
    pub fn and_modify<Val, F: FnOnce(Val) -> Val>(
        self,
        map: &mut LinkedHashMap<K, Val>,
        f: F,
    ) -> (e: Entry<K>)
        requires
            old(map).wf(),
            old(map).contents().contains_key(self.spec_key()@) ==> f.requires(
                (old(map).contents()[self.spec_key()@],),
            ),
        ensures
            e.spec_key() == self.spec_key(),
            (e is Occupied) == old(map).contents().contains_key(self.spec_key()@),
            final(map).wf(),
            old(map).contents().contains_key(self.spec_key()@) ==> ({
                &&& final(map).contents().contains_key(self.spec_key()@)
                &&& f.ensures(
                    (old(map).contents()[self.spec_key()@],),
                    final(map).contents()[self.spec_key()@],
                )
                &&& final(map).contents() == old(map).contents().insert(
                    self.spec_key()@,
                    final(map).contents()[self.spec_key()@],
                )
            }),
            !old(map).contents().contains_key(self.spec_key()@) ==> *final(map) == *old(map),
    {
        let key = match self {
            Entry::Occupied(e) => e.key,
            Entry::Vacant(e) => e.key,
        };
        match map.find_index(&key) {
            Some(i) => {
                proof {
                    lemma_assoc_map_index(map.entries@, i as int);
                }
                let pair = map.entries.remove(i);
                let (stored_key, stored_value) = pair;
                let new_value = f(stored_value);
                map.entries.insert(i, (stored_key, new_value));
                proof {
                    assert(map.entries@ =~= old(map).entries@.update(
                        i as int,
                        (old(map).entries@[i as int].0, map.entries@[i as int].1),
                    ));
                    lemma_assoc_map_update_entry(
                        old(map).entries@,
                        i as int,
                        map.entries@[i as int],
                    );
                }
                Entry::Occupied(OccupiedEntry { key })
            },
            None => {
                proof {
                    lemma_assoc_map_absent(map.entries@, key@);
                }
                Entry::Vacant(VacantEntry { key })
            },
        }
    }
}

} // verus!
