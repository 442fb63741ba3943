//! String interning: each distinct non-empty string gets a key, and a key
//! gives back its string. The empty string always has key 0.

use crate::key::OpaqueKey;
use fnv::FnvHashMap;
use std::marker::PhantomData;
use vstd::prelude::*;

verus! {

/// A key type usable with [`StringTable`].
pub trait TableKey: OpaqueKey {

}

impl TableKey for u8 {

}

impl TableKey for u16 {

}

impl TableKey for u32 {

}

impl TableKey for u64 {

}

/// A hash map from strings to key indices (an `FnvHashMap`).
#[verifier::external_body]
pub struct StrMap {
    map: FnvHashMap<String, usize>,
}

/// What a [`StrMap`] holds, strings taken by their contents.
pub uninterp spec fn str_map_contents(m: StrMap) -> Map<Seq<char>, usize>;

pub open spec fn empty_str_map() -> Map<Seq<char>, usize> {
    Map::empty()
}

/// Makes an empty `FnvHashMap` (`Default::default`): it holds nothing.
#[verifier::external_body]
fn str_map_new() -> (r: StrMap)
    ensures
        str_map_contents(r) == empty_str_map(),
{
    StrMap { map: FnvHashMap::default() }
}

/// Looks `key` up with `HashMap::get`: the value stored under an equal
/// string, if any.
#[verifier::external_body]
fn str_map_get(m: &StrMap, key: &str) -> (r: Option<usize>)
    ensures
        str_map_contents(*m).contains_key(key@) ==> r == Some(str_map_contents(*m)[key@]),
        !str_map_contents(*m).contains_key(key@) ==> r is None,
{
    m.map.get(key).copied()
}

/// Stores `value` under `key` with `HashMap::insert`, replacing any value
/// stored under an equal string.
#[verifier::external_body]
fn str_map_insert(m: &mut StrMap, key: String, value: usize)
    ensures
        str_map_contents(*final(m)) == str_map_contents(*old(m)).insert(key@, value),
{
    m.map.insert(key, value);
}

/// A string interner handing out keys of type `I`.
pub struct StringTable<I = u32> {
    str_key_map: StrMap,
    lookup_table: Vec<String>,
    _key: PhantomData<I>,
}

/// The default capacity of a table.
pub const DEFAULT_TABLE_CAPACITY: usize = 16;

impl<I: TableKey> StringTable<I> {
    /// The interned strings: the string of key `i + 1` is at position `i`.
    pub closed spec fn strings(&self) -> Seq<Seq<char>> {
        self.lookup_table@.map_values(|s: String| s@)
    }

    /// The table's invariant: the interned strings are non-empty and
    /// distinct, and the map gives each its key.
    pub closed spec fn wf(&self) -> bool {
        let t = self.strings();
        let m = str_map_contents(self.str_key_map);
        &&& t.len() <= I::spec_max_index()
        &&& forall|i: int| 0 <= i < t.len() ==> (#[trigger] t[i]).len() > 0
        &&& forall|i: int, j: int| 0 <= i < j < t.len() ==> t[i] != t[j]
        &&& forall|i: int| 0 <= i < t.len() ==> m.contains_key(#[trigger] t[i]) && m[t[i]] == i + 1
        &&& forall|s: Seq<char>| #[trigger]
            m.contains_key(s) ==> exists|i: int| 0 <= i < t.len() && t[i] == s
    }

    /// A table with room for about `capacity` bytes of strings.
    pub fn with_capacity(capacity: usize) -> (r: Self)
        ensures
            r.wf(),
            r.strings() == Seq::<Seq<char>>::empty(),
    {
        let r = StringTable { str_key_map: str_map_new(), lookup_table: Vec::new(), _key: PhantomData };
        assert(r.strings() =~= Seq::<Seq<char>>::empty());
        r
    }

    /// The key of `string`, interning it first if it is new.
    pub fn entry(&mut self, string: &str) -> (r: I)
        requires
            old(self).wf(),
            string@.len() == 0 || old(self).strings().contains(string@) || old(self).strings().len()
                < I::spec_max_index(),
        ensures
            final(self).wf(),
            string@.len() == 0 ==> r.spec_index() == 0 && final(self).strings() == old(self).strings(),
            string@.len() > 0 && old(self).strings().contains(string@) ==> final(self).strings()
                == old(self).strings(),
            string@.len() > 0 && !old(self).strings().contains(string@) ==> final(self).strings() == old(self).strings().push(string@),
            string@.len() > 0 ==> 1 <= r.spec_index() <= final(self).strings().len()
                && final(self).strings()[r.spec_index() - 1] == string@,
    {
        if string.is_empty() {
            return I::from_index(0);
        }
        match str_map_get(&self.str_key_map, string) {
            Some(interned) => {
                proof {
                    let t = self.strings();
                    let i = choose|i: int| 0 <= i < t.len() && t[i] == string@;
                    assert(t.contains(string@));
                }
                return I::from_index(interned);
            },
            None => {},
        }
        proof {
            if self.strings().contains(string@) {
                let t = self.strings();
                let i = choose|i: int| 0 <= i < t.len() && t[i] == string@;
                assert(str_map_contents(self.str_key_map).contains_key(t[i]));
            }
        }
        let len = self.lookup_table.len();
        proof {
            I::lemma_max_index_fits();
        }
        let key = I::from_index(len + 1);
        let ghost old_t = self.strings();
        str_map_insert(&mut self.str_key_map, string.to_owned(), len + 1);
        self.lookup_table.push(string.to_owned());
        proof {
            let t = self.strings();
            assert(t =~= old_t.push(string@));
            let m = str_map_contents(self.str_key_map);
            assert forall|s: Seq<char>| #[trigger] m.contains_key(s) implies exists|i: int|
                0 <= i < t.len() && t[i] == s by {
                if s != string@ {
                    let i = choose|i: int| 0 <= i < old_t.len() && old_t[i] == s;
                    assert(t[i] == s);
                } else {
                    assert(t[t.len() - 1] == s);
                }
            }
        }
        key
    }

    /// The string of `key`: empty for key 0.
    pub fn lookup(&self, key: I) -> (r: &str)
        requires
            self.wf(),
            key.spec_index() <= self.strings().len(),
        ensures
            key.spec_index() == 0 ==> r@ == Seq::<char>::empty(),
            key.spec_index() > 0 ==> r@ == self.strings()[key.spec_index() - 1],
    {
        proof {
            I::lemma_max_index_fits();
        }
        let key = key.as_index();
        if key == 0 {
            let e = "";
            proof {
                reveal_strlit("");
            }
            return e;
        }
        let key = key - 1;
        self.lookup_table[key].as_str()
    }

    /// The key of `string`, if it is interned (the empty string always is).
    pub fn rlookup(&self, string: &str) -> (r: Option<I>)
        requires
            self.wf(),
        ensures
            string@.len() == 0 ==> (r matches Some(k) && k.spec_index() == 0),
            string@.len() > 0 && self.strings().contains(string@) ==> (r matches Some(k) && 1
                <= k.spec_index() <= self.strings().len() && self.strings()[k.spec_index() - 1]
                == string@),
            string@.len() > 0 && !self.strings().contains(string@) ==> r is None,
    {
        if string.is_empty() {
            return Some(I::from_index(0));
        }
        match str_map_get(&self.str_key_map, string) {
            Some(interned) => {
                proof {
                    let t = self.strings();
                    let i = choose|i: int| 0 <= i < t.len() && t[i] == string@;
                    assert(t.contains(string@));
                }
                Some(I::from_index(interned))
            },
            None => {
                proof {
                    if self.strings().contains(string@) {
                        let t = self.strings();
                        let i = choose|i: int| 0 <= i < t.len() && t[i] == string@;
                        assert(str_map_contents(self.str_key_map).contains_key(t[i]));
                    }
                }
                None
            },
        }
    }

    /// The number of interned strings.
    pub fn len(&self) -> (r: usize)
        ensures
            r == self.strings().len(),
    {
        self.lookup_table.len()
    }
}

impl<I: TableKey> Default for StringTable<I> {
    fn default() -> (r: Self)
        ensures
            r.wf(),
            r.strings() == Seq::<Seq<char>>::empty(),
    {
        Self::with_capacity(DEFAULT_TABLE_CAPACITY)
    }
}

/// Interning gives back what was interned: the key that `entry` returns for
/// a string looks that string up again, in the table as it is right after
/// the call and after any number of later calls.
pub proof fn lemma_entry_then_lookup<I: TableKey>(
    after: StringTable<I>,
    later: StringTable<I>,
    s: Seq<char>,
    key: I,
)
    requires
        after.wf(),
        s.len() > 0,
        1 <= key.spec_index() <= after.strings().len(),
        after.strings()[key.spec_index() - 1] == s,
        later.strings().len() >= after.strings().len(),
        later.strings().subrange(0, after.strings().len() as int) == after.strings(),
    ensures
        later.strings()[key.spec_index() - 1] == s,
{
    assert(later.strings().subrange(0, after.strings().len() as int)[key.spec_index() - 1]
        == later.strings()[key.spec_index() - 1]);
}

/// Interning is injective: in a well-formed table, two keys of non-empty
/// strings are equal exactly when their strings are.
pub proof fn lemma_keys_distinct<I: TableKey>(t: StringTable<I>, k1: nat, k2: nat)
    requires
        t.wf(),
        1 <= k1 <= t.strings().len(),
        1 <= k2 <= t.strings().len(),
    ensures
        (k1 == k2) <==> (t.strings()[k1 - 1] == t.strings()[k2 - 1]),
{
    if k1 < k2 {
        assert(t.strings()[k1 - 1] != t.strings()[k2 - 1]);
    } else if k2 < k1 {
        assert(t.strings()[k2 - 1] != t.strings()[k1 - 1]);
    }
}

/// Every interned string is non-empty.
pub proof fn lemma_nonempty<I: TableKey>(t: StringTable<I>, k: nat)
    requires
        t.wf(),
        1 <= k <= t.strings().len(),
    ensures
        t.strings()[k - 1].len() > 0,
{
}

/// Interning only ever appends: a call of `entry` keeps every earlier key's
/// string.
pub proof fn lemma_entry_appends<I: TableKey>(
    before: Seq<Seq<char>>,
    after: Seq<Seq<char>>,
    s: Seq<char>,
)
    requires
        s.len() == 0 || before.contains(s) ==> after == before,
        s.len() > 0 && !before.contains(s) ==> after == before.push(s),
    ensures
        after.len() >= before.len(),
        after.subrange(0, before.len() as int) == before,
{
    assert(before.push(s).subrange(0, before.len() as int) =~= before);
    assert(before.subrange(0, before.len() as int) =~= before);
}

} // verus!
