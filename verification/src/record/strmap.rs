//! An ordered string-to-string map: the key order is the byte order of the
//! keys' UTF-8 encodings, each key occurs once.
use crate::text::str_equal;
use vstd::prelude::*;

verus! {

/// Byte-lexicographic strict order, the order of `str`'s `Ord`.
pub open spec fn bytes_lt(a: Seq<u8>, b: Seq<u8>) -> bool
    decreases a.len(),
{
    if a.len() == 0 {
        b.len() > 0
    } else if b.len() == 0 {
        false
    } else if a[0] != b[0] {
        a[0] < b[0]
    } else {
        bytes_lt(a.drop_first(), b.drop_first())
    }
}

/// The UTF-8 encoding of a string's characters.
pub open spec fn key_bytes(s: Seq<char>) -> Seq<u8> {
    vstd::utf8::encode_utf8(s)
}

/// `bytes_lt` is transitive.
pub proof fn lemma_bytes_lt_transitive(a: Seq<u8>, b: Seq<u8>, c: Seq<u8>)
    requires
        bytes_lt(a, b),
        bytes_lt(b, c),
    ensures
        bytes_lt(a, c),
    decreases a.len(),
{
    if a.len() > 0 && b.len() > 0 && c.len() > 0 && a[0] == b[0] && b[0] == c[0] {
        lemma_bytes_lt_transitive(a.drop_first(), b.drop_first(), c.drop_first());
    }
}

/// `bytes_lt` is irreflexive.
pub proof fn lemma_bytes_lt_irreflexive(a: Seq<u8>)
    ensures
        !bytes_lt(a, a),
    decreases a.len(),
{
    if a.len() > 0 {
        lemma_bytes_lt_irreflexive(a.drop_first());
    }
}

/// `bytes_lt` is total on distinct sequences.
pub proof fn lemma_bytes_lt_total(a: Seq<u8>, b: Seq<u8>)
    ensures
        a != b ==> bytes_lt(a, b) || bytes_lt(b, a),
    decreases a.len(),
{
    if a.len() > 0 && b.len() > 0 && a[0] == b[0] {
        lemma_bytes_lt_total(a.drop_first(), b.drop_first());
        if a.drop_first() == b.drop_first() {
            assert(a =~= seq![a[0]] + a.drop_first());
            assert(b =~= seq![b[0]] + b.drop_first());
        }
    }
    if a.len() == 0 && b.len() == 0 {
        assert(a =~= b);
    }
}

/// Compare two byte strings in byte-lexicographic order.
pub fn bytes_less(a: &[u8], b: &[u8]) -> (res: bool)
    ensures
        res == bytes_lt(a@, b@),
{
    let mut i: usize = 0;
    assert(a@.skip(0) =~= a@);
    assert(b@.skip(0) =~= b@);
    while i < a.len() && i < b.len()
        invariant
            i <= a@.len(),
            i <= b@.len(),
            forall|k: int| 0 <= k < i ==> a@[k] == b@[k],
            bytes_lt(a@, b@) == bytes_lt(a@.skip(i as int), b@.skip(i as int)),
        decreases a.len() - i,
    {
        if a[i] != b[i] {
            return a[i] < b[i];
        }
        assert(a@.skip(i as int).drop_first() =~= a@.skip(i + 1));
        assert(b@.skip(i as int).drop_first() =~= b@.skip(i + 1));
        i = i + 1;
    }
    i < b.len()
}

/// Whether the entries' keys strictly increase in byte order.
pub open spec fn sorted_keys(e: Seq<(Seq<char>, Seq<char>)>) -> bool {
    forall|i: int, j: int|
        0 <= i < j < e.len() ==> bytes_lt(#[trigger] key_bytes(e[i].0), #[trigger] key_bytes(e[j].0))
}

/// An ordered map of strings, iterated in byte order of its keys.
#[derive(Debug, Clone, PartialEq, Eq)]
pub struct StringMap {
    entries: Vec<(String, String)>,
}

/// The abstract entries of a map, in key order.
pub open spec fn entries_view(v: Seq<(String, String)>) -> Seq<(Seq<char>, Seq<char>)> {
    v.map_values(|p: (String, String)| (p.0@, p.1@))
}

impl StringMap {
    /// The entries in key order.
    pub closed spec fn spec_entries(&self) -> Seq<(Seq<char>, Seq<char>)> {
        entries_view(self.entries@)
    }

    /// Keys strictly increase; keys are therefore unique.
    pub closed spec fn wf(&self) -> bool {
        sorted_keys(self.spec_entries())
    }

    /// An empty map.
    pub fn new() -> (m: Self)
        ensures
            m.wf(),
            m.spec_entries() == Seq::<(Seq<char>, Seq<char>)>::empty(),
    {
        let m = StringMap { entries: Vec::new() };
        assert(m.spec_entries() =~= Seq::<(Seq<char>, Seq<char>)>::empty());
        m
    }

    /// The number of entries.
    pub fn len(&self) -> (n: usize)
        ensures
            n == self.spec_entries().len(),
    {
        self.entries.len()
    }

    /// An independent copy with the same entries.
    pub fn copy(&self) -> (m: Self)
        ensures
            m.spec_entries() == self.spec_entries(),
            m.wf() == self.wf(),
    {
        let mut entries: Vec<(String, String)> = Vec::new();
        let mut i: usize = 0;
        while i < self.entries.len()
            invariant
                i <= self.entries@.len(),
                entries_view(entries@) == entries_view(self.entries@.take(i as int)),
            decreases self.entries@.len() - i,
        {
            let k = self.entries[i].0.clone();
            let v = self.entries[i].1.clone();
            let ghost before = entries@;
            entries.push((k, v));
            proof {
                assert(self.entries@.take(i + 1) =~= self.entries@.take(i as int).push(self.entries@[i as int]));
                assert(entries@ =~= before.push((k, v)));
                assert(entries_view(entries@) =~= entries_view(before).push((k@, v@)));
                assert(entries_view(self.entries@.take(i + 1)) =~= entries_view(self.entries@.take(i as int)).push(
                    (self.entries@[i as int].0@, self.entries@[i as int].1@)));
            }
            i = i + 1;
        }
        assert(self.entries@.take(i as int) =~= self.entries@);
        StringMap { entries }
    }

    /// The entry at a position in key order.
    pub fn entry(&self, i: usize) -> (p: (&String, &String))
        requires
            i < self.spec_entries().len(),
        ensures
            (p.0@, p.1@) == self.spec_entries()[i as int],
    {
        let e = &self.entries[i];
        (&e.0, &e.1)
    }

    /// Look up a key.
    pub fn get(&self, key: &str) -> (v: Option<&String>)
        requires
            self.wf(),
        ensures
            match v {
                Some(v) => exists|i: int|
                    0 <= i < self.spec_entries().len() && self.spec_entries()[i] == (key@, v@),
                None => forall|i: int|
                    0 <= i < self.spec_entries().len() ==> self.spec_entries()[i].0 != key@,
            },
    {
        let mut i: usize = 0;
        while i < self.entries.len()
            invariant
                i <= self.entries@.len(),
                forall|k: int| 0 <= k < i ==> self.spec_entries()[k].0 != key@,
            decreases self.entries@.len() - i,
        {
            if str_equal(self.entries[i].0.as_str(), key) {
                assert(self.spec_entries()[i as int] == (key@, self.entries@[i as int].1@));
                return Some(&self.entries[i].1);
            }
            i = i + 1;
        }
        None
    }

    /// Insert or replace a value, keeping keys in byte order.
    pub fn insert(&mut self, key: String, value: String)
        requires
            old(self).wf(),
        ensures
            final(self).wf(),
            insert_result(old(self).spec_entries(), key@, value@, final(self).spec_entries()),
            entries_map(final(self).spec_entries()) == entries_map(old(self).spec_entries()).insert(key@, value@),
    {
        let ghost old_e = self.spec_entries();
        let mut i: usize = 0;
        while i < self.entries.len() && bytes_less(self.entries[i].0.as_str().as_bytes(), key.as_str().as_bytes())
            invariant
                i <= self.entries@.len(),
                self.spec_entries() == old_e,
                sorted_keys(old_e),
                forall|k: int| 0 <= k < i ==> bytes_lt(#[trigger] key_bytes(old_e[k].0), key_bytes(key@)),
            decreases self.entries@.len() - i,
        {
            i = i + 1;
        }
        let ghost kv = (key@, value@);
        if i < self.entries.len() && str_equal(self.entries[i].0.as_str(), key.as_str()) {
            self.entries.set(i, (key, value));
            proof {
                assert(self.spec_entries() =~= old_e.update(i as int, kv));
                assert forall|a: int, b: int| 0 <= a < b < self.spec_entries().len() implies
                    bytes_lt(#[trigger] key_bytes(self.spec_entries()[a].0), #[trigger] key_bytes(self.spec_entries()[b].0)) by {
                    assert(key_bytes(old_e[a].0) == key_bytes(self.spec_entries()[a].0));
                    assert(key_bytes(old_e[b].0) == key_bytes(self.spec_entries()[b].0));
                }
            }
        } else {
            proof {
                if i < old_e.len() {
                    lemma_bytes_lt_total(key_bytes(old_e[i as int].0), key_bytes(key@));
                    if key_bytes(old_e[i as int].0) == key_bytes(key@) {
                        vstd::utf8::encode_utf8_decode_utf8(old_e[i as int].0);
                        vstd::utf8::encode_utf8_decode_utf8(key@);
                    }
                    assert(bytes_lt(key_bytes(key@), key_bytes(old_e[i as int].0)));
                }
            }
            self.entries.insert(i, (key, value));
            proof {
                let ne = self.spec_entries();
                assert(ne =~= old_e.insert(i as int, kv));
                assert forall|a: int, b: int| 0 <= a < b < ne.len() implies
                    bytes_lt(#[trigger] key_bytes(ne[a].0), #[trigger] key_bytes(ne[b].0)) by {
                    if b < i {
                        assert(key_bytes(old_e[a].0) == key_bytes(ne[a].0));
                    } else if b == i {
                    } else if a == i {
                        if b > i + 1 {
                            assert(bytes_lt(key_bytes(old_e[i as int].0), key_bytes(old_e[b - 1].0)));
                            lemma_bytes_lt_transitive(key_bytes(key@), key_bytes(old_e[i as int].0), key_bytes(old_e[b - 1].0));
                        }
                    } else if a < i {
                        if b > i + 1 {
                            assert(bytes_lt(key_bytes(old_e[i as int].0), key_bytes(old_e[b - 1].0)));
                            lemma_bytes_lt_transitive(key_bytes(key@), key_bytes(old_e[i as int].0), key_bytes(old_e[b - 1].0));
                        }
                        lemma_bytes_lt_transitive(key_bytes(old_e[a].0), key_bytes(key@), key_bytes(old_e[b - 1].0));
                    } else {
                        assert(key_bytes(old_e[a - 1].0) == key_bytes(ne[a].0));
                    }
                }
            }
        }
        proof {
            assert(insert_result(old_e, key@, value@, self.spec_entries()));
            lemma_insert_map(old_e, key@, value@, self.spec_entries());
        }
    }
}

/// Inserting `(k, v)` into entries `old` in key order gives `new`: the value of
/// an existing equal key is replaced, otherwise the pair is placed after every
/// smaller key and before every larger one.
pub open spec fn insert_result(
    old: Seq<(Seq<char>, Seq<char>)>,
    k: Seq<char>,
    v: Seq<char>,
    new: Seq<(Seq<char>, Seq<char>)>,
) -> bool {
    exists|i: int|
        0 <= i <= old.len() && (forall|j: int| 0 <= j < i ==> bytes_lt(#[trigger] key_bytes(old[j].0), key_bytes(k)))
            && ({
            ||| (i < old.len() && old[i].0 == k && new == old.update(i, (k, v)))
            ||| ((i == old.len() || bytes_lt(key_bytes(k), key_bytes(old[i].0))) && new == old.insert(i, (k, v)))
        })
}

/// Whether some entry has a key.
pub open spec fn has_key(e: Seq<(Seq<char>, Seq<char>)>, k: Seq<char>) -> bool {
    exists|i: int| 0 <= i < e.len() && #[trigger] e[i].0 == k
}

/// A position of an entry with a key, if any.
pub open spec fn key_index(e: Seq<(Seq<char>, Seq<char>)>, k: Seq<char>) -> int {
    choose|i: int| 0 <= i < e.len() && #[trigger] e[i].0 == k
}

/// The entries as a map from key to value.
pub open spec fn entries_map(e: Seq<(Seq<char>, Seq<char>)>) -> Map<Seq<char>, Seq<char>> {
    Map::new(|k: Seq<char>| has_key(e, k), |k: Seq<char>| e[key_index(e, k)].1)
}

/// Sorted entries have distinct keys.
pub proof fn lemma_sorted_distinct(e: Seq<(Seq<char>, Seq<char>)>, i: int, j: int)
    requires
        sorted_keys(e),
        0 <= i < e.len(),
        0 <= j < e.len(),
        i != j,
    ensures
        e[i].0 != e[j].0,
{
    lemma_bytes_lt_irreflexive(key_bytes(e[i].0));
    lemma_bytes_lt_irreflexive(key_bytes(e[j].0));
}

/// With distinct keys, the map gives each entry's value.
proof fn lemma_map_at(e: Seq<(Seq<char>, Seq<char>)>, n: int)
    requires
        sorted_keys(e),
        0 <= n < e.len(),
    ensures
        entries_map(e).contains_key(e[n].0),
        entries_map(e)[e[n].0] == e[n].1,
{
    let k = e[n].0;
    assert(has_key(e, k));
    let c = key_index(e, k);
    assert(0 <= c < e.len() && e[c].0 == k);
    if c != n {
        lemma_sorted_distinct(e, c, n);
    }
    assert(entries_map(e)[k] == e[c].1);
}

/// Dropping the first of sorted entries removes its key from their map.
proof fn lemma_drop_first_map(e: Seq<(Seq<char>, Seq<char>)>)
    requires
        sorted_keys(e),
        e.len() > 0,
    ensures
        entries_map(e.drop_first()) == entries_map(e).remove(e[0].0),
{
    let t = e.drop_first();
    let a = entries_map(t);
    let b = entries_map(e).remove(e[0].0);
    assert(sorted_keys(t)) by {
        assert forall|i: int, j: int| 0 <= i < j < t.len() implies bytes_lt(
            #[trigger] key_bytes(t[i].0),
            #[trigger] key_bytes(t[j].0),
        ) by {
            assert(t[i] == e[i + 1] && t[j] == e[j + 1]);
        }
    }
    assert forall|key: Seq<char>| a.contains_key(key) <==> b.contains_key(key) by {
        if a.contains_key(key) {
            let c = choose|c: int| 0 <= c < t.len() && #[trigger] t[c].0 == key;
            assert(e[c + 1].0 == key);
            lemma_sorted_distinct(e, 0, c + 1);
        }
        if b.contains_key(key) {
            let c = choose|c: int| 0 <= c < e.len() && #[trigger] e[c].0 == key;
            assert(c != 0);
            assert(t[c - 1].0 == key);
        }
    }
    assert forall|key: Seq<char>| a.contains_key(key) implies a[key] == b[key] by {
        let c = choose|c: int| 0 <= c < t.len() && #[trigger] t[c].0 == key;
        lemma_map_at(t, c);
        assert(t[c] == e[c + 1]);
        lemma_map_at(e, c + 1);
    }
    assert(a =~= b);
}

/// Sorted entries are determined by their map.
pub proof fn lemma_entries_unique(a: Seq<(Seq<char>, Seq<char>)>, b: Seq<(Seq<char>, Seq<char>)>)
    requires
        sorted_keys(a),
        sorted_keys(b),
        entries_map(a) == entries_map(b),
    ensures
        a == b,
    decreases a.len(),
{
    if a.len() == 0 || b.len() == 0 {
        if a.len() > 0 {
            lemma_map_at(a, 0);
        }
        if b.len() > 0 {
            lemma_map_at(b, 0);
        }
        assert(a =~= b);
    } else {
        lemma_map_at(a, 0);
        lemma_map_at(b, 0);
        let j = choose|j: int| 0 <= j < b.len() && #[trigger] b[j].0 == a[0].0;
        let i = choose|i: int| 0 <= i < a.len() && #[trigger] a[i].0 == b[0].0;
        if i > 0 && j > 0 {
            assert(bytes_lt(key_bytes(b[0].0), key_bytes(b[j].0)));
            assert(bytes_lt(key_bytes(a[0].0), key_bytes(a[i].0)));
            lemma_bytes_lt_transitive(key_bytes(a[0].0), key_bytes(b[0].0), key_bytes(a[0].0));
            lemma_bytes_lt_irreflexive(key_bytes(a[0].0));
        }
        if i == 0 {
            assert(a[0].0 == b[0].0);
        } else {
            assert(j == 0);
        }
        assert(a[0] == b[0]);
        lemma_drop_first_map(a);
        lemma_drop_first_map(b);
        lemma_entries_unique(a.drop_first(), b.drop_first());
        assert(a =~= seq![a[0]] + a.drop_first());
        assert(b =~= seq![b[0]] + b.drop_first());
    }
}

impl StringMap {
    /// Two well-formed maps with the same content hold the same entries.
    pub proof fn lemma_same_content(a: &StringMap, b: &StringMap)
        requires
            a.wf(),
            b.wf(),
            entries_map(a.spec_entries()) == entries_map(b.spec_entries()),
        ensures
            a.spec_entries() == b.spec_entries(),
    {
        lemma_entries_unique(a.spec_entries(), b.spec_entries());
    }
}

/// Inserting a key into sorted entries, as `StringMap::insert` does, inserts
/// it into their map.
pub proof fn lemma_insert_map(old: Seq<(Seq<char>, Seq<char>)>, k: Seq<char>, v: Seq<char>, new: Seq<(Seq<char>, Seq<char>)>)
    requires
        sorted_keys(old),
        sorted_keys(new),
        insert_result(old, k, v, new),
    ensures
        entries_map(new) == entries_map(old).insert(k, v),
{
    let i = choose|i: int|
        0 <= i <= old.len() && (forall|j: int| 0 <= j < i ==> bytes_lt(#[trigger] key_bytes(old[j].0), key_bytes(k)))
            && ({
            ||| (i < old.len() && old[i].0 == k && new == old.update(i, (k, v)))
            ||| ((i == old.len() || bytes_lt(key_bytes(k), key_bytes(old[i].0))) && new == old.insert(i, (k, v)))
        });
    let a = entries_map(new);
    let b = entries_map(old).insert(k, v);
    let updated = i < old.len() && old[i].0 == k && new == old.update(i, (k, v));
    // Every key of `new` lies at one of its positions; relate positions.
    assert forall|key: Seq<char>| a.contains_key(key) <==> b.contains_key(key) by {
        if a.contains_key(key) {
            let c = choose|c: int| 0 <= c < new.len() && #[trigger] new[c].0 == key;
            if key != k {
                if updated {
                    assert(old[c].0 == key);
                } else if c < i {
                    assert(old[c].0 == key);
                } else {
                    assert(new[c] == old[c - 1]);
                    assert(old[c - 1].0 == key);
                }
            }
        }
        if b.contains_key(key) {
            if key == k {
                if updated {
                    assert(new[i].0 == k);
                } else {
                    assert(new[i].0 == k);
                }
            } else {
                let c = choose|c: int| 0 <= c < old.len() && #[trigger] old[c].0 == key;
                if updated {
                    assert(new[c].0 == key);
                } else if c < i {
                    assert(new[c].0 == key);
                } else {
                    assert(new[c + 1].0 == key);
                }
            }
        }
    }
    assert forall|key: Seq<char>| a.contains_key(key) implies a[key] == b[key] by {
        if key == k {
            lemma_map_at(new, i);
        } else {
            let c = choose|c: int| 0 <= c < new.len() && #[trigger] new[c].0 == key;
            lemma_map_at(new, c);
            if updated {
                assert(old[c] == new[c]);
                lemma_map_at(old, c);
            } else if c < i {
                assert(old[c] == new[c]);
                lemma_map_at(old, c);
            } else {
                assert(c != i);
                assert(new[c] == old[c - 1]);
                lemma_map_at(old, c - 1);
            }
        }
    }
    assert(a =~= b);
}

/// The entries of an empty sequence form the empty map.
pub proof fn lemma_empty_map()
    ensures
        entries_map(Seq::<(Seq<char>, Seq<char>)>::empty()) == Map::<Seq<char>, Seq<char>>::empty(),
{
    assert(entries_map(Seq::<(Seq<char>, Seq<char>)>::empty()) =~= Map::<Seq<char>, Seq<char>>::empty());
}

} // verus!
