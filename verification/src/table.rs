//! Tables from keys to values.

use vstd::prelude::*;

verus! {

/// A key of a table: keys are the same if their views are.
pub trait TableKey: View + Sized {
    /// Whether two keys are the same.
    fn same(&self, other: &Self) -> (r: bool)
        ensures
            r == (self@ == other@),
    ;
}

impl TableKey for String {
    fn same(&self, other: &String) -> (r: bool) {
        same_text(self.as_str(), other.as_str())
    }
}

impl TableKey for Vec<u8> {
    fn same(&self, other: &Vec<u8>) -> (r: bool) {
        same_bytes(self.as_slice(), other.as_slice())
    }
}

/// Whether two byte slices hold the same bytes.
pub fn same_bytes(a: &[u8], b: &[u8]) -> (r: bool)
    ensures
        r == (a@ == b@),
{
    if a.len() != b.len() {
        return false;
    }
    let mut i: usize = 0;
    while i < a.len()
        invariant
            i <= a@.len(),
            a@.len() == b@.len(),
            forall|j: int| 0 <= j < i ==> a@[j] == b@[j],
        decreases a@.len() - i,
    {
        if a[i] != b[i] {
            return false;
        }
        i = i + 1;
    }
    assert(a@ =~= b@);
    true
}

/// Whether two texts are the same.
fn same_text(a: &str, b: &str) -> (r: bool)
    ensures
        r == (a@ == b@),
{
    proof {
        vstd::utf8::encode_utf8_decode_utf8(a@);
        vstd::utf8::encode_utf8_decode_utf8(b@);
    }
    same_bytes(a.as_bytes(), b.as_bytes())
}

/// A table from keys to values, in which no key occurs twice.
pub struct Table<K, V> {
    /// The keys with their values.
    pub entries: Vec<(K, V)>,
}

/// Whether a key is at a place of a list of entries.
pub open spec fn key_at<K: TableKey, V>(entries: Seq<(K, V)>, key: K::V, i: int) -> bool {
    0 <= i < entries.len() && entries[i].0@ == key
}

/// The place of a key in a list of entries.
pub open spec fn place_of<K: TableKey, V>(entries: Seq<(K, V)>, key: K::V) -> int {
    choose|i: int| key_at(entries, key, i)
}

impl<K: TableKey, V> View for Table<K, V> {
    type V = Map<K::V, V>;

    open spec fn view(&self) -> Map<K::V, V> {
        Map::new(
            |key: K::V| exists|i: int| key_at(self.entries@, key, i),
            |key: K::V| self.entries@[place_of(self.entries@, key)].1,
        )
    }
}

impl<K: TableKey, V> Table<K, V> {
    /// No key occurs twice.
    pub open spec fn wf(self) -> bool {
        forall|i: int, j: int|
            0 <= i < j < self.entries@.len() ==> (#[trigger] self.entries@[i]).0@ != (
            #[trigger] self.entries@[j]).0@
    }

    /// An empty table.
    pub fn new() -> (r: Table<K, V>)
        ensures
            r.wf(),
            r@ == Map::<K::V, V>::empty(),
    {
        let r: Table<K, V> = Table { entries: Vec::new() };
        assert(r@ =~= Map::<K::V, V>::empty());
        r
    }

    /// The place of a key; none if the table does not have it.
    pub fn position(&self, key: &K) -> (r: Option<usize>)
        requires
            self.wf(),
        ensures
            match r {
                Some(i) => {
                    &&& i < self.entries@.len()
                    &&& self.entries@[i as int].0@ == key@
                    &&& self@.contains_key(key@)
                    &&& self@[key@] == self.entries@[i as int].1
                },
                None => !self@.contains_key(key@),
            },
    {
        let mut i: usize = 0;
        while i < self.entries.len()
            invariant
                i <= self.entries@.len(),
                self.wf(),
                forall|j: int| 0 <= j < i ==> (#[trigger] self.entries@[j]).0@ != key@,
            decreases self.entries@.len() - i,
        {
            if self.entries[i].0.same(key) {
                assert(key_at(self.entries@, key@, i as int));
                assert(place_of(self.entries@, key@) == i);
                return Some(i);
            }
            i = i + 1;
        }
        None
    }

    /// Whether the table has a key.
    pub fn contains_key(&self, key: &K) -> (r: bool)
        requires
            self.wf(),
        ensures
            r == self@.contains_key(key@),
    {
        self.position(key).is_some()
    }

    /// The value of a key.
    pub fn get(&self, key: &K) -> (r: Option<&V>)
        requires
            self.wf(),
        ensures
            match r {
                Some(value) => self@.contains_key(key@) && *value == self@[key@],
                None => !self@.contains_key(key@),
            },
    {
        match self.position(key) {
            Some(i) => Some(&self.entries[i].1),
            None => None,
        }
    }

    /// Gives a key a value, in place of the one that it has.
    pub fn insert(&mut self, key: K, value: V)
        requires
            old(self).wf(),
        ensures
            final(self).wf(),
            final(self)@ == old(self)@.insert(key@, value),
    {
        let ghost name = key@;
        self.remove(&key);
        let ghost before = self.entries@;
        let ghost rest = self@;
        assert forall|i: int| 0 <= i < before.len() implies (#[trigger] before[i]).0@ != name by {
            if before[i].0@ == name {
                assert(key_at(before, name, i));
                assert(rest.contains_key(name));
            }
        }
        self.entries.push((key, value));
        let ghost after = self.entries@;
        proof {
            assert(after.drop_last() =~= before);
            assert(key_at(after, name, before.len() as int));
            assert(place_of(after, name) == before.len());
            let now = self@;
            assert forall|k: K::V| k != name implies #[trigger] now.dom().contains(k)
                == rest.dom().contains(k) && (rest.dom().contains(k) ==> now[k] == rest[k]) by {
                lemma_places_agree(before, after, k);
            }
            assert(now =~= rest.insert(name, value));
            assert(rest.insert(name, value) =~= old(self)@.insert(name, value));
        }
    }

    /// Takes a key out of the table.
    pub fn remove(&mut self, key: &K)
        requires
            old(self).wf(),
        ensures
            final(self).wf(),
            final(self)@ == old(self)@.remove(key@),
    {
        let ghost before = self.entries@;
        match self.position(key) {
            Some(i) => {
                self.entries.remove(i);
                proof {
                    let after = self.entries@;
                    let now = self@;
                    let then = old(self)@;
                    assert forall|k: K::V| k != key@ implies #[trigger] now.dom().contains(k)
                        == then.dom().contains(k) && (then.dom().contains(k) ==> now[k]
                        == then[k]) by {
                        if old(self)@.contains_key(k) {
                            let j = place_of(before, k);
                            assert(key_at(before, k, j));
                            let moved = if j < i {
                                j
                            } else {
                                j - 1
                            };
                            assert(key_at(after, k, moved));
                            let found = place_of(after, k);
                            assert(key_at(after, k, found));
                            assert(found == moved);
                        }
                        if self@.contains_key(k) {
                            let j = place_of(after, k);
                            assert(key_at(after, k, j));
                            assert(key_at(
                                before,
                                k,
                                if j < i {
                                    j
                                } else {
                                    j + 1
                                },
                            ));
                        }
                    }
                    assert forall|j: int| 0 <= j < after.len() implies (#[trigger] after[j]).0@
                        != key@ by {
                        if j < i {
                            assert(before[j].0@ != before[i as int].0@);
                        } else {
                            assert(before[i as int].0@ != before[j + 1].0@);
                        }
                    }
                    assert(!self@.contains_key(key@)) by {
                        if self@.contains_key(key@) {
                            assert(key_at(after, key@, place_of(after, key@)));
                        }
                    }
                    assert(now =~= then.remove(key@));
                }
            },
            None => {
                assert(self@ =~= old(self)@.remove(key@));
            },
        }
    }
}

/// Where one more entry with another key is added, the places of the other keys
/// stay the same.
proof fn lemma_places_agree<K: TableKey, V>(
    before: Seq<(K, V)>,
    after: Seq<(K, V)>,
    key: K::V,
)
    requires
        after.len() == before.len() + 1,
        after.drop_last() == before,
        after.last().0@ != key,
        forall|i: int, j: int|
            0 <= i < j < before.len() ==> (#[trigger] before[i]).0@ != (#[trigger] before[j]).0@,
    ensures
        (exists|i: int| key_at(before, key, i)) == (exists|i: int| key_at(after, key, i)),
        (exists|i: int| key_at(before, key, i)) ==> after[place_of(after, key)].1
            == before[place_of(before, key)].1,
{
    if exists|i: int| key_at(before, key, i) {
        let i = place_of(before, key);
        assert(key_at(before, key, i));
        assert(after[i] == before[i]);
        assert(key_at(after, key, i));
        let j = place_of(after, key);
        assert(key_at(after, key, j));
        assert(after[j] == before[j]);
        assert(i == j);
    }
    if exists|i: int| key_at(after, key, i) {
        let j = place_of(after, key);
        assert(key_at(after, key, j));
        assert(after[j] == before[j]);
        assert(key_at(before, key, j));
    }
}

/// A table has exactly the keys of its entries, each with the value that stands
/// beside it.
pub proof fn law_table_has_its_entries<K: TableKey, V>(table: Table<K, V>, i: int, key: K::V)
    requires
        table.wf(),
    ensures
        0 <= i < table.entries@.len() ==> table@.contains_key(table.entries@[i].0@)
            && table@[table.entries@[i].0@] == table.entries@[i].1,
        (forall|j: int| 0 <= j < table.entries@.len() ==> (#[trigger] table.entries@[j]).0@ != key)
            ==> !table@.contains_key(key),
{
    if 0 <= i < table.entries@.len() {
        let k = table.entries@[i].0@;
        assert(key_at(table.entries@, k, i));
        let j = place_of(table.entries@, k);
        assert(key_at(table.entries@, k, j));
        assert(table.entries@[i].0@ == table.entries@[j].0@);
    }
}

} // verus!
