//! A string-to-string attribute map that keeps its keys unique and in
//! character order (the order `BTreeMap<String, String>` iterates in).
use vstd::prelude::*;
use crate::text::{chars_eq, string_chars, to_chars, to_string};

verus! {

#[derive(Debug, PartialEq, Eq, Default)]
pub struct AttributeMap {
    entries: Vec<(String, String)>,
}

/// Character-wise (code point) lexicographic order, the order of `String`'s `Ord`.
pub open spec fn seq_lt(a: Seq<char>, b: Seq<char>) -> bool
    decreases a.len(),
{
    if a.len() == 0 {
        b.len() > 0
    } else if b.len() == 0 {
        false
    } else if a[0] != b[0] {
        (a[0] as u32) < (b[0] as u32)
    } else {
        seq_lt(a.drop_first(), b.drop_first())
    }
}

pub fn chars_lt(a: &[char], b: &[char]) -> (r: bool)
    ensures
        r == seq_lt(a@, b@),
{
    let mut i: usize = 0;
    assert(a@.subrange(0, a@.len() as int) =~= a@);
    assert(b@.subrange(0, b@.len() as int) =~= b@);
    while i < a.len() && i < b.len() && a[i] == b[i]
        invariant
            i <= a.len(),
            i <= b.len(),
            seq_lt(a@, b@) == seq_lt(
                a@.subrange(i as int, a@.len() as int),
                b@.subrange(i as int, b@.len() as int),
            ),
        decreases a.len() - i,
    {
        assert(a@.subrange(i as int, a@.len() as int).drop_first() =~= a@.subrange(
            i + 1,
            a@.len() as int,
        ));
        assert(b@.subrange(i as int, b@.len() as int).drop_first() =~= b@.subrange(
            i + 1,
            b@.len() as int,
        ));
        i += 1;
    }
    let ghost sa = a@.subrange(i as int, a@.len() as int);
    let ghost sb = b@.subrange(i as int, b@.len() as int);
    if i == a.len() {
        assert(sa.len() == 0);
        i < b.len()
    } else if i == b.len() {
        false
    } else {
        assert(sa[0] == a@[i as int] && sb[0] == b@[i as int]);
        (a[i] as u32) < (b[i] as u32)
    }
}

/// Entries whose keys are pairwise distinct.
pub open spec fn distinct_keys(e: Seq<(String, String)>) -> bool {
    forall|i: int, j: int|
        0 <= i < e.len() && 0 <= j < e.len() && i != j ==> #[trigger] e[i].0@ != #[trigger] e[j].0@
}

pub open spec fn has_key(e: Seq<(String, String)>, k: Seq<char>) -> bool {
    exists|i: int| 0 <= i < e.len() && #[trigger] e[i].0@ == k
}

pub open spec fn index_of(e: Seq<(String, String)>, k: Seq<char>) -> int {
    choose|i: int| 0 <= i < e.len() && #[trigger] e[i].0@ == k
}

/// The map an entry sequence stands for.
pub open spec fn map_of(e: Seq<(String, String)>) -> Map<Seq<char>, Seq<char>> {
    Map::new(|k: Seq<char>| has_key(e, k), |k: Seq<char>| e[index_of(e, k)].1@)
}

proof fn lemma_index(e: Seq<(String, String)>, i: int)
    requires
        distinct_keys(e),
        0 <= i < e.len(),
    ensures
        has_key(e, e[i].0@),
        index_of(e, e[i].0@) == i,
        map_of(e).contains_key(e[i].0@),
        map_of(e)[e[i].0@] == e[i].1@,
{
    let k = e[i].0@;
    assert(has_key(e, k));
    let j = index_of(e, k);
    assert(e[j].0@ == k);
}

proof fn lemma_set(old_e: Seq<(String, String)>, e: Seq<(String, String)>, i: int)
    requires
        distinct_keys(old_e),
        0 <= i < old_e.len(),
        old_e[i].0@ == e[i].0@,
        e == old_e.update(i, e[i]),
    ensures
        distinct_keys(e),
        map_of(e) == map_of(old_e).insert(e[i].0@, e[i].1@),
{
    let k = e[i].0@;
    let v = e[i].1@;
    let old_map = map_of(old_e);
    assert forall|a: int, b: int| 0 <= a < e.len() && 0 <= b < e.len() && a != b implies #[trigger] e[a].0@
        != #[trigger] e[b].0@ by {
        assert(old_e[a].0@ == e[a].0@ && old_e[b].0@ == e[b].0@);
    }
    assert forall|x: Seq<char>| #[trigger]
        map_of(e).contains_key(x) == old_map.insert(k, v).contains_key(x) by {
        if old_map.insert(k, v).contains_key(x) {
            if x == k {
                assert(e[i].0@ == x);
            } else {
                let j = index_of(old_e, x);
                assert(e[j].0@ == x);
            }
        }
        if map_of(e).contains_key(x) {
            let j = index_of(e, x);
            assert(old_e[j].0@ == x);
        }
    }
    assert forall|x: Seq<char>| #[trigger] map_of(e).contains_key(x) implies map_of(e)[x]
        == old_map.insert(k, v)[x] by {
        let j = index_of(e, x);
        assert(0 <= j < e.len() && e[j].0@ == x);
        if x == k {
            assert(j == i);
        } else {
            assert(old_e[j].0@ == x);
            let j2 = index_of(old_e, x);
            assert(old_e[j2].0@ == x);
            assert(j2 == j);
        }
    }
    assert(map_of(e) =~= old_map.insert(k, v));
}

proof fn lemma_insert_at(old_e: Seq<(String, String)>, e: Seq<(String, String)>, i: int)
    requires
        distinct_keys(old_e),
        0 <= i <= old_e.len(),
        !has_key(old_e, e[i].0@),
        e == old_e.insert(i, e[i]),
    ensures
        distinct_keys(e),
        map_of(e) == map_of(old_e).insert(e[i].0@, e[i].1@),
{
    let k = e[i].0@;
    let v = e[i].1@;
    let old_map = map_of(old_e);
    assert forall|a: int| 0 <= a < e.len() && a != i implies #[trigger] e[a] == old_e[if a < i {
        a
    } else {
        a - 1
    }] by {}
    assert forall|a: int, b: int| 0 <= a < e.len() && 0 <= b < e.len() && a != b implies #[trigger] e[a].0@
        != #[trigger] e[b].0@ by {
        let oa = if a < i {
            a
        } else {
            a - 1
        };
        let ob = if b < i {
            b
        } else {
            b - 1
        };
        if a != i && b != i {
            assert(e[a] == old_e[oa]);
            assert(e[b] == old_e[ob]);
        } else if a == i {
            assert(e[b] == old_e[ob]);
        } else {
            assert(e[a] == old_e[oa]);
        }
    }
    assert forall|x: Seq<char>| #[trigger]
        map_of(e).contains_key(x) == old_map.insert(k, v).contains_key(x) by {
        if old_map.insert(k, v).contains_key(x) {
            if x == k {
                assert(e[i].0@ == x);
            } else {
                let j = index_of(old_e, x);
                let nj = if j < i {
                    j
                } else {
                    j + 1
                };
                assert(e[nj] == old_e[j]);
            }
        }
        if map_of(e).contains_key(x) {
            let j = index_of(e, x);
            if j != i {
                let oj = if j < i {
                    j
                } else {
                    j - 1
                };
                assert(e[j] == old_e[oj]);
            }
        }
    }
    assert forall|x: Seq<char>| #[trigger] map_of(e).contains_key(x) implies map_of(e)[x]
        == old_map.insert(k, v)[x] by {
        let j = index_of(e, x);
        assert(0 <= j < e.len() && e[j].0@ == x);
        if x == k {
            assert(j == i);
        } else {
            let oj = if j < i {
                j
            } else {
                j - 1
            };
            assert(e[j] == old_e[oj]);
            let j2 = index_of(old_e, x);
            assert(old_e[j2].0@ == x);
            assert(j2 == oj);
        }
    }
    assert(map_of(e) =~= old_map.insert(k, v));
}

proof fn lemma_remove_at(old_e: Seq<(String, String)>, e: Seq<(String, String)>, i: int)
    requires
        distinct_keys(old_e),
        0 <= i < old_e.len(),
        e == old_e.remove(i),
    ensures
        distinct_keys(e),
        map_of(e) == map_of(old_e).remove(old_e[i].0@),
{
    let key = old_e[i].0@;
    let old_map = map_of(old_e);
    assert forall|a: int| 0 <= a < e.len() implies #[trigger] e[a] == old_e[if a < i {
        a
    } else {
        a + 1
    }] by {}
    assert forall|a: int, b: int| 0 <= a < e.len() && 0 <= b < e.len() && a != b implies #[trigger] e[a].0@
        != #[trigger] e[b].0@ by {
        let oa = if a < i {
            a
        } else {
            a + 1
        };
        let ob = if b < i {
            b
        } else {
            b + 1
        };
        assert(e[a] == old_e[oa]);
        assert(e[b] == old_e[ob]);
    }
    assert forall|x: Seq<char>| #[trigger]
        map_of(e).contains_key(x) == old_map.remove(key).contains_key(x) by {
        if old_map.remove(key).contains_key(x) {
            let j = index_of(old_e, x);
            assert(j != i);
            let nj = if j < i {
                j
            } else {
                j - 1
            };
            assert(e[nj] == old_e[j]);
        }
        if map_of(e).contains_key(x) {
            let j = index_of(e, x);
            let oj = if j < i {
                j
            } else {
                j + 1
            };
            assert(e[j] == old_e[oj]);
            assert(oj != i);
        }
    }
    assert forall|x: Seq<char>| #[trigger] map_of(e).contains_key(x) implies map_of(e)[x]
        == old_map.remove(key)[x] by {
        let j = index_of(e, x);
        assert(0 <= j < e.len() && e[j].0@ == x);
        let oj = if j < i {
            j
        } else {
            j + 1
        };
        assert(e[j] == old_e[oj]);
        let j2 = index_of(old_e, x);
        assert(old_e[j2].0@ == x);
        assert(j2 == oj);
    }
    assert(map_of(e) =~= old_map.remove(key));
}

/// The map the pairs give, a later pair replacing an earlier one with the same key.
pub open spec fn pairs_map(pairs: Seq<(String, String)>) -> Map<Seq<char>, Seq<char>>
    decreases pairs.len(),
{
    if pairs.len() == 0 {
        Map::empty()
    } else {
        pairs_map(pairs.drop_last()).insert(pairs.last().0@, pairs.last().1@)
    }
}

impl AttributeMap {
    /// The keys are pairwise distinct.
    #[verifier::type_invariant]
    spec fn wf(&self) -> bool {
        distinct_keys(self.entries@)
    }

    /// The map from each key to its value.
    pub closed spec fn view(&self) -> Map<Seq<char>, Seq<char>> {
        map_of(self.entries@)
    }

    /// Number of entries.
    pub closed spec fn len(&self) -> nat {
        self.entries@.len()
    }

    pub fn new() -> (r: Self)
        ensures
            r@ == Map::<Seq<char>, Seq<char>>::empty(),
            r.len() == 0,
    {
        let r = AttributeMap { entries: Vec::new() };
        assert(r@ =~= Map::<Seq<char>, Seq<char>>::empty());
        r
    }

    pub fn is_empty(&self) -> (r: bool)
        ensures
            r == (self@ == Map::<Seq<char>, Seq<char>>::empty()),
    {
        proof {
            use_type_invariant(self);
        }
        if self.entries.len() == 0 {
            assert(self@ =~= Map::<Seq<char>, Seq<char>>::empty());
            true
        } else {
            proof {
                lemma_index(self.entries@, 0);
            }
            assert(self@.contains_key(self.entries@[0].0@));
            false
        }
    }

    /// Number of entries.
    pub fn count(&self) -> (r: usize)
        ensures
            r == self.len(),
    {
        self.entries.len()
    }

    /// Position of `key`, if present.
    fn find(entries: &Vec<(String, String)>, key: &[char]) -> (r: Option<usize>)
        ensures
            r matches Some(i) ==> i < entries@.len() && entries@[i as int].0@ == key@,
            r is None ==> !has_key(entries@, key@),
    {
        let mut i: usize = 0;
        while i < entries.len()
            invariant
                i <= entries@.len(),
                forall|k: int| 0 <= k < i ==> entries@[k].0@ != key@,
            decreases entries.len() - i,
        {
            let kc = string_chars(&entries[i].0);
            if chars_eq(&kc, key) {
                return Some(i);
            }
            i += 1;
        }
        None
    }

    /// The value stored under `key`.
    pub fn get_chars(&self, key: &[char]) -> (r: Option<&String>)
        ensures
            r is Some <==> self@.contains_key(key@),
            r matches Some(v) ==> v@ == self@[key@],
    {
        proof {
            use_type_invariant(self);
        }
        match Self::find(&self.entries, key) {
            Some(i) => {
                proof {
                    lemma_index(self.entries@, i as int);
                }
                Some(&self.entries[i].1)
            },
            None => None,
        }
    }

    /// The value stored under the key `key`.
    pub fn get(&self, key: &str) -> (r: Option<&String>)
        ensures
            r is Some <==> self@.contains_key(key@),
            r matches Some(v) ==> v@ == self@[key@],
    {
        let k = to_chars(key);
        self.get_chars(&k)
    }

    pub fn contains_key(&self, key: &str) -> (r: bool)
        ensures
            r == self@.contains_key(key@),
    {
        self.get(key).is_some()
    }

    pub fn contains_key_chars(&self, key: &[char]) -> (r: bool)
        ensures
            r == self@.contains_key(key@),
    {
        self.get_chars(key).is_some()
    }

    /// Stores `value` under `key`, replacing any earlier value.
    pub fn insert_chars(&mut self, key: &[char], value: String)
        ensures
            final(self)@ == old(self)@.insert(key@, value@),
    {
        proof {
            use_type_invariant(&*self);
        }
        let mut entries: Vec<(String, String)> = Vec::new();
        std::mem::swap(&mut entries, &mut self.entries);
        let ghost old_e = entries@;
        assert(map_of(old_e) == old(self)@);
        match Self::find(&entries, key) {
            Some(i) => {
                let k = to_string(key);
                entries.set(i, (k, value));
                proof {
                    lemma_set(old_e, entries@, i as int);
                }
                *self = AttributeMap { entries };
                return;
            },
            None => {},
        }
        let mut i: usize = 0;
        while i < entries.len()
            invariant
                entries@ == old_e,
                i <= entries@.len(),
            decreases entries.len() - i,
        {
            let kc = string_chars(&entries[i].0);
            if chars_lt(key, &kc) {
                break;
            }
            i += 1;
        }
        let k = to_string(key);
        entries.insert(i, (k, value));
        proof {
            lemma_insert_at(old_e, entries@, i as int);
        }
        *self = AttributeMap { entries };
    }

    pub fn insert(&mut self, key: &str, value: String)
        ensures
            final(self)@ == old(self)@.insert(key@, value@),
    {
        let k = to_chars(key);
        self.insert_chars(&k, value);
    }

    /// Stores `value` under `key` unless `key` is already present (`entry().or_insert`).
    pub fn insert_if_absent_chars(&mut self, key: &[char], value: String)
        ensures
            old(self)@.contains_key(key@) ==> final(self)@ == old(self)@,
            !old(self)@.contains_key(key@) ==> final(self)@ == old(self)@.insert(key@, value@),
    {
        if !self.contains_key_chars(key) {
            self.insert_chars(key, value);
        }
    }

    /// Removes `key`.
    pub fn remove_chars(&mut self, key: &[char])
        ensures
            final(self)@ == old(self)@.remove(key@),
    {
        proof {
            use_type_invariant(&*self);
        }
        let mut entries: Vec<(String, String)> = Vec::new();
        std::mem::swap(&mut entries, &mut self.entries);
        let ghost old_e = entries@;
        assert(map_of(old_e) == old(self)@);
        match Self::find(&entries, key) {
            None => {
                assert(map_of(old_e).remove(key@) =~= map_of(old_e));
            },
            Some(i) => {
                entries.remove(i);
                proof {
                    lemma_remove_at(old_e, entries@, i as int);
                }
            },
        }
        *self = AttributeMap { entries };
    }

    pub fn remove(&mut self, key: &str)
        ensures
            final(self)@ == old(self)@.remove(key@),
    {
        let k = to_chars(key);
        self.remove_chars(&k);
    }

    /// The keys, in order.
    pub fn keys(&self) -> (r: Vec<String>)
        ensures
            r@.len() == self.len(),
            forall|i: int| 0 <= i < r@.len() ==> self@.contains_key((#[trigger] r@[i])@),
            forall|x: Seq<char>|
                self@.contains_key(x) ==> exists|i: int| 0 <= i < r@.len() && (#[trigger] r@[i])@ == x,
    {
        proof {
            use_type_invariant(self);
        }
        let mut r: Vec<String> = Vec::new();
        let mut i: usize = 0;
        while i < self.entries.len()
            invariant
                i <= self.entries@.len(),
                r@.len() == i,
                forall|j: int| 0 <= j < i ==> (#[trigger] r@[j])@ == self.entries@[j].0@,
            decreases self.entries.len() - i,
        {
            r.push(self.entries[i].0.clone());
            i += 1;
        }
        assert forall|j: int| 0 <= j < r@.len() implies self@.contains_key((#[trigger] r@[j])@) by {
            lemma_index(self.entries@, j);
        }
        assert forall|x: Seq<char>| self@.contains_key(x) implies exists|j: int|
            0 <= j < r@.len() && (#[trigger] r@[j])@ == x by {
            let j = index_of(self.entries@, x);
            assert(r@[j]@ == x);
        }
        r
    }

    /// The entry at a position, in key order.
    pub fn entry_at(&self, i: usize) -> (r: (&String, &String))
        requires
            i < self.len(),
        ensures
            self@.contains_key(r.0@),
            self@[r.0@] == r.1@,
    {
        proof {
            use_type_invariant(self);
            lemma_index(self.entries@, i as int);
        }
        (&self.entries[i].0, &self.entries[i].1)
    }

    /// Builds a map from pairs; later pairs replace earlier ones with the same key.
    pub fn from_pairs(pairs: Vec<(String, String)>) -> (r: Self)
        ensures
            r@ == pairs_map(pairs@),
    {
        let mut m = AttributeMap::new();
        let mut i: usize = 0;
        while i < pairs.len()
            invariant
                i <= pairs.len(),
                m@ == pairs_map(pairs@.subrange(0, i as int)),
            decreases pairs.len() - i,
        {
            assert(pairs@.subrange(0, i + 1).drop_last() =~= pairs@.subrange(0, i as int));
            let k = string_chars(&pairs[i].0);
            m.insert_chars(&k, pairs[i].1.clone());
            i += 1;
        }
        assert(pairs@.subrange(0, pairs@.len() as int) =~= pairs@);
        m
    }

    /// A copy of the map.
    pub fn copy(&self) -> (r: Self)
        ensures
            r@ == self@,
    {
        proof {
            use_type_invariant(self);
        }
        let mut entries: Vec<(String, String)> = Vec::new();
        let mut i: usize = 0;
        while i < self.entries.len()
            invariant
                i <= self.entries@.len(),
                entries@.len() == i,
                forall|j: int|
                    0 <= j < i ==> (#[trigger] entries@[j]).0@ == self.entries@[j].0@
                        && entries@[j].1@ == self.entries@[j].1@,
            decreases self.entries.len() - i,
        {
            entries.push((self.entries[i].0.clone(), self.entries[i].1.clone()));
            i += 1;
        }
        let ghost e = entries@;
        let ghost se = self.entries@;
        assert(distinct_keys(e)) by {
            assert forall|a: int, b: int| 0 <= a < e.len() && 0 <= b < e.len() && a != b implies #[trigger] e[a].0@
                != #[trigger] e[b].0@ by {
                assert(se[a].0@ != se[b].0@);
            }
        }
        assert forall|x: Seq<char>| #[trigger] map_of(e).contains_key(x) == map_of(se).contains_key(x) by {
            if map_of(e).contains_key(x) {
                let j = index_of(e, x);
                assert(se[j].0@ == x);
            }
            if map_of(se).contains_key(x) {
                let j = index_of(se, x);
                assert(e[j].0@ == x);
            }
        }
        assert forall|x: Seq<char>| #[trigger] map_of(e).contains_key(x) implies map_of(e)[x] == map_of(
            se,
        )[x] by {
            let j = index_of(e, x);
            assert(se[j].0@ == x);
            lemma_index(se, j);
        }
        assert(map_of(e) =~= map_of(se));
        AttributeMap { entries }
    }
}

impl Clone for AttributeMap {
    fn clone(&self) -> (r: Self)
        ensures
            r@ == self@,
    {
        self.copy()
    }
}

} // verus!
