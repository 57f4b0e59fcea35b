//! Keyed tables: a `rustc_hash` index over a dense vector of entries.
use rustc_hash::FxBuildHasher;
use rustc_hash::FxHashMap;
use crate::lists::{keep_in, keeping, kept, Keeps};
use vstd::prelude::*;

verus! {

/// The hasher state of `rustc_hash`, carried inside the index and never looked into.
#[verifier::external_type_specification]
#[verifier::external_body]
pub struct ExFxBuildHasher(rustc_hash::FxBuildHasher);

/// The pairs that an index holds.
pub uninterp spec fn fx_pairs(m: FxHashMap<u128, usize>) -> Map<u128, usize>;

/// `FxHashMap::default`: an index that holds nothing.
#[verifier::external_body]
fn fx_new() -> (m: FxHashMap<u128, usize>)
    ensures
        fx_pairs(m).is_empty(),
{
    FxHashMap::default()
}

/// `HashMap::get` on an index: the position stored under the key, if there is one.
#[verifier::external_body]
fn fx_get(m: &FxHashMap<u128, usize>, key: u128) -> (r: Option<usize>)
    ensures
        r == (if fx_pairs(*m).contains_key(key) { Some(fx_pairs(*m)[key]) } else { None }),
{
    m.get(&key).copied()
}

/// `HashMap::insert` on an index: the position is stored under the key, in place of any other.
#[verifier::external_body]
fn fx_insert(m: &mut FxHashMap<u128, usize>, key: u128, at: usize)
    ensures
        fx_pairs(*final(m)) == fx_pairs(*old(m)).insert(key, at),
{
    m.insert(key, at);
}

/// `HashMap::remove` on an index: nothing is stored under the key afterwards.
#[verifier::external_body]
fn fx_remove(m: &mut FxHashMap<u128, usize>, key: u128)
    ensures
        fx_pairs(*final(m)) == fx_pairs(*old(m)).remove(key),
{
    m.remove(&key);
}

/// A key that packs into 128 bits without loss.
pub trait Key: Sized {
    spec fn packed(self) -> u128;

    proof fn packed_injective(a: Self, b: Self)
        ensures
            a.packed() == b.packed() ==> a == b,
    ;

    fn pack(&self) -> (r: u128)
        ensures
            r == self.packed(),
    ;

    /// The process that a key belongs to, where its first part is one.
    spec fn owner(self) -> u32;

    fn owner_of(&self) -> (r: u32)
        ensures
            r == self.owner(),
    ;
}

impl Key for u32 {
    open spec fn packed(self) -> u128 {
        self as u128
    }

    proof fn packed_injective(a: Self, b: Self) {
    }

    fn pack(&self) -> (r: u128) {
        *self as u128
    }

    open spec fn owner(self) -> u32 {
        self
    }

    fn owner_of(&self) -> (r: u32) {
        *self
    }
}

impl Key for u64 {
    open spec fn packed(self) -> u128 {
        self as u128
    }

    proof fn packed_injective(a: Self, b: Self) {
    }

    fn pack(&self) -> (r: u128) {
        *self as u128
    }

    open spec fn owner(self) -> u32 {
        0
    }

    fn owner_of(&self) -> (r: u32) {
        0
    }
}

impl Key for i32 {
    open spec fn packed(self) -> u128 {
        (self + 0x8000_0000) as u128
    }

    proof fn packed_injective(a: Self, b: Self) {
    }

    fn pack(&self) -> (r: u128) {
        (*self as i64 + 0x8000_0000) as u128
    }

    open spec fn owner(self) -> u32 {
        0
    }

    fn owner_of(&self) -> (r: u32) {
        0
    }
}

impl Key for (u32, u32) {
    open spec fn packed(self) -> u128 {
        (self.0 * 0x1_0000_0000 + self.1) as u128
    }

    proof fn packed_injective(a: Self, b: Self) {
    }

    fn pack(&self) -> (r: u128) {
        self.0 as u128 * 0x1_0000_0000 + self.1 as u128
    }

    open spec fn owner(self) -> u32 {
        self.0
    }

    fn owner_of(&self) -> (r: u32) {
        self.0
    }
}

impl Key for (u32, u64) {
    open spec fn packed(self) -> u128 {
        (self.0 * 0x1_0000_0000_0000_0000 + self.1) as u128
    }

    proof fn packed_injective(a: Self, b: Self) {
    }

    fn pack(&self) -> (r: u128) {
        self.0 as u128 * 0x1_0000_0000_0000_0000 + self.1 as u128
    }

    open spec fn owner(self) -> u32 {
        self.0
    }

    fn owner_of(&self) -> (r: u32) {
        self.0
    }
}

impl Key for (u32, u32, u32) {
    open spec fn packed(self) -> u128 {
        (self.0 * 0x1_0000_0000_0000_0000 + self.1 * 0x1_0000_0000 + self.2) as u128
    }

    proof fn packed_injective(a: Self, b: Self) {
    }

    fn pack(&self) -> (r: u128) {
        self.0 as u128 * 0x1_0000_0000_0000_0000 + self.1 as u128 * 0x1_0000_0000 + self.2 as u128
    }

    open spec fn owner(self) -> u32 {
        self.0
    }

    fn owner_of(&self) -> (r: u32) {
        self.0
    }
}

/// The pairs of `s` are those of `m`, each once.
pub open spec fn enumerates<K, V>(s: Seq<(K, V)>, m: Map<K, V>) -> bool {
    &&& forall|i: int|
        #![trigger s[i]]
        0 <= i < s.len() ==> m.contains_key(s[i].0) && m[s[i].0] == s[i].1
    &&& forall|k: K| #[trigger]
        m.contains_key(k) ==> exists|i: int| 0 <= i < s.len() && #[trigger] s[i].0 == k
    &&& forall|i: int, j: int| 0 <= i < j < s.len() ==> #[trigger] s[i].0 != #[trigger] s[j].0
}

/// The part of `m` that satisfies `p`.
pub open spec fn part<K, V>(m: Map<K, V>, p: spec_fn(K, V) -> bool) -> Map<K, V> {
    Map::new(|k: K| m.contains_key(k) && p(k, m[k]), |k: K| m[k])
}

/// The part of `m` that does not satisfy `p`.
pub open spec fn rest<K, V>(m: Map<K, V>, p: spec_fn(K, V) -> bool) -> Map<K, V> {
    Map::new(|k: K| m.contains_key(k) && !p(k, m[k]), |k: K| m[k])
}

/// A walk over a map meets as many pairs as the map has.
pub proof fn lemma_enumerates_len<K, V>(s: Seq<(K, V)>, m: Map<K, V>)
    requires
        enumerates(s, m),
    ensures
        m.dom().finite(),
        m.dom().len() == s.len(),
{
    let k = s.map_values(|e: (K, V)| e.0);
    assert forall|i: int, j: int| 0 <= i < k.len() && 0 <= j < k.len() && i != j implies k[i] != k[j] by {
        if i < j {
            assert(s[i].0 != s[j].0);
        } else {
            assert(s[j].0 != s[i].0);
        }
    }
    k.unique_seq_to_set();
    assert(k.to_set() =~= m.dom()) by {
        assert forall|x: K| m.dom().contains(x) implies k.to_set().contains(x) by {
            let i = choose|i: int| 0 <= i < s.len() && #[trigger] s[i].0 == x;
            assert(k[i] == x);
        }
        assert forall|x: K| k.to_set().contains(x) implies m.dom().contains(x) by {
            let i = choose|i: int| 0 <= i < k.len() && k[i] == x;
            assert(m.contains_key(s[i].0));
        }
    }
}

/// A choice of entries.
pub trait Picks<K, V> {
    spec fn wants(&self, k: K, v: V) -> bool;

    fn pick(&self, k: &K, v: &V) -> (r: bool)
        ensures
            r == self.wants(*k, *v),
    ;
}

/// The choice as a predicate.
pub open spec fn wanted<K, V, P: Picks<K, V>>(p: P) -> spec_fn(K, V) -> bool {
    |k: K, v: V| p.wants(k, v)
}

/// The entries of one process.
pub struct OwnedBy {
    pub pid: u32,
}

impl<K: Key, V> Picks<K, V> for OwnedBy {
    open spec fn wants(&self, k: K, v: V) -> bool {
        k.owner() == self.pid
    }

    fn pick(&self, k: &K, v: &V) -> (r: bool) {
        k.owner_of() == self.pid
    }
}

/// The entries of one process, as a predicate.
pub open spec fn owned<K: Key, V>(pid: u32) -> spec_fn(K, V) -> bool {
    |k: K, v: V| k.owner() == pid
}

/// A finite map from keys to values.
pub struct Table<K: Key, V> {
    entries: Vec<(K, V)>,
    index: FxHashMap<u128, usize>,
}

impl<K: Key, V> View for Table<K, V> {
    type V = Map<K, V>;

    closed spec fn view(&self) -> Map<K, V> {
        Map::new(
            |k: K| fx_pairs(self.index).contains_key(k.packed()),
            |k: K| self.entries@[fx_pairs(self.index)[k.packed()] as int].1,
        )
    }
}

impl<K: Key, V> Table<K, V> {
    /// The index and the entries agree, and no key occurs twice.
    pub closed spec fn wf(&self) -> bool {
        &&& forall|i: int|
            #![trigger self.entries@[i]]
            0 <= i < self.entries@.len() ==> fx_pairs(self.index).contains_key(
                self.entries@[i].0.packed(),
            ) && fx_pairs(self.index)[self.entries@[i].0.packed()] == i
        &&& forall|p: u128|
            #![trigger fx_pairs(self.index).contains_key(p)]
            fx_pairs(self.index).contains_key(p) ==> fx_pairs(self.index)[p] < self.entries@.len()
                && self.entries@[fx_pairs(self.index)[p] as int].0.packed() == p
    }

    /// The entries in the order in which a walk meets them.
    pub closed spec fn walk(&self) -> Seq<(K, V)> {
        self.entries@
    }

    /// A walk meets each entry of the map once and nothing else.
    pub proof fn lemma_walk(&self)
        requires
            self.wf(),
        ensures
            enumerates(self.walk(), self@),
    {
        assert forall|k: K| #[trigger] self@.contains_key(k) implies exists|i: int|
            0 <= i < self.walk().len() && #[trigger] self.walk()[i].0 == k by {
            let i = fx_pairs(self.index)[k.packed()] as int;
            K::packed_injective(self.entries@[i].0, k);
            assert(self.walk()[i].0 == k);
        }
    }

    pub fn new() -> (t: Self)
        ensures
            t.wf(),
            t@ == Map::<K, V>::empty(),
    {
        let t: Table<K, V> = Table { entries: Vec::new(), index: fx_new() };
        assert(t@ =~= Map::<K, V>::empty());
        t
    }

    pub fn len(&self) -> (n: usize)
        requires
            self.wf(),
        ensures
            n == self.walk().len(),
    {
        self.entries.len()
    }

    pub fn contains_key(&self, k: K) -> (r: bool)
        requires
            self.wf(),
        ensures
            r == self@.contains_key(k),
    {
        fx_get(&self.index, k.pack()).is_some()
    }

    pub fn get(&self, k: K) -> (r: Option<&V>)
        requires
            self.wf(),
        ensures
            match r {
                Some(v) => self@.contains_key(k) && *v == self@[k],
                None => !self@.contains_key(k),
            },
    {
        match fx_get(&self.index, k.pack()) {
            Some(i) => Some(&self.entries[i].1),
            None => None,
        }
    }

    pub fn get_mut(&mut self, k: K) -> (r: Option<&mut V>)
        requires
            old(self).wf(),
        ensures
            final(self).wf(),
            match r {
                Some(v) => old(self)@.contains_key(k) && *v == old(self)@[k] && final(self)@
                    =~= old(self)@.insert(k, *final(v)),
                None => !old(self)@.contains_key(k) && final(self)@ == old(self)@,
            },
    {
        match fx_get(&self.index, k.pack()) {
            Some(i) => {
                let r = &mut self.entries[i].1;
                assert forall|k2: K| #[trigger] k2.packed() == k.packed() implies k2 == k by {
                    K::packed_injective(k2, k);
                }
                assert(*r == old(self)@[k]);
                Some(r)
            },
            None => None,
        }
    }

    pub fn insert(&mut self, k: K, v: V)
        requires
            old(self).wf(),
        ensures
            final(self).wf(),
            final(self)@ == old(self)@.insert(k, v),
    {
        let p: u128 = k.pack();
        match fx_get(&self.index, p) {
            Some(i) => {
                proof {
                    K::packed_injective(self.entries@[i as int].0, k);
                }
                self.entries[i] = (k, v);
            },
            None => {
                let n: usize = self.entries.len();
                self.entries.push((k, v));
                fx_insert(&mut self.index, p, n);
            },
        }
        assert forall|k2: K| #[trigger] self@.contains_key(k2) && k2.packed() == p implies k2 == k by {
            K::packed_injective(k2, k);
        }
        assert(self@ =~= old(self)@.insert(k, v));
    }

    pub fn remove(&mut self, k: K) -> (r: Option<V>)
        requires
            old(self).wf(),
        ensures
            final(self).wf(),
            final(self)@ == old(self)@.remove(k),
            r == (if old(self)@.contains_key(k) { Some(old(self)@[k]) } else { None }),
    {
        let p: u128 = k.pack();
        let r = match fx_get(&self.index, p) {
            Some(i) => {
                let last: usize = self.entries.len() - 1;
                let e = self.entries.swap_remove(i);
                fx_remove(&mut self.index, p);
                if i < last {
                    let q: u128 = self.entries[i].0.pack();
                    fx_insert(&mut self.index, q, i);
                }
                Some(e.1)
            },
            None => None,
        };
        assert forall|k2: K| #[trigger] k2.packed() == p implies k2 == k by {
            K::packed_injective(k2, k);
        }
        assert(self@ =~= old(self)@.remove(k));
        r
    }

    /// The entry that a walk meets at position `i`.
    pub fn at(&self, i: usize) -> (r: (&K, &V))
        requires
            self.wf(),
            i < self.walk().len(),
        ensures
            *r.0 == self.walk()[i as int].0,
            *r.1 == self.walk()[i as int].1,
    {
        let e = &self.entries[i];
        (&e.0, &e.1)
    }

    /// Takes out the entries of one process.
    pub fn extract_owner(&mut self, pid: u32) -> (r: Vec<(K, V)>)
        requires
            old(self).wf(),
        ensures
            final(self).wf(),
            final(self)@ == rest(old(self)@, owned(pid)),
            enumerates(r@, part(old(self)@, owned(pid))),
    {
        let choice = OwnedBy { pid };
        let r = self.extract(&choice);
        assert(wanted::<K, V, OwnedBy>(choice) =~= owned(pid));
        r
    }

    /// Takes out the entries that a choice wants.
    pub fn extract<P: Picks<K, V>>(&mut self, choice: &P) -> (r: Vec<(K, V)>)
        requires
            old(self).wf(),
        ensures
            final(self).wf(),
            final(self)@ == rest(old(self)@, wanted(*choice)),
            enumerates(r@, part(old(self)@, wanted(*choice))),
    {
        let ghost p = wanted::<K, V, P>(*choice);
        let mut r: Vec<(K, V)> = Vec::new();
        let mut i: usize = 0;
        proof {
            self.lemma_walk();
        }
        while i < self.entries.len()
            invariant
                self.wf(),
                i <= self.entries@.len(),
                p == wanted::<K, V, P>(*choice),
                forall|j: int|
                    #![trigger self.entries@[j]]
                    0 <= j < i ==> !p(self.entries@[j].0, self.entries@[j].1),
                forall|k: K| #[trigger]
                    self@.contains_key(k) ==> old(self)@.contains_key(k) && self@[k] == old(self)@[k],
                forall|k: K| #[trigger]
                    old(self)@.contains_key(k) && !self@.contains_key(k) ==> exists|j: int|
                        0 <= j < r@.len() && #[trigger] r@[j].0 == k,
                forall|j: int|
                    #![trigger r@[j]]
                    0 <= j < r@.len() ==> old(self)@.contains_key(r@[j].0) && !self@.contains_key(
                        r@[j].0,
                    ) && old(self)@[r@[j].0] == r@[j].1 && p(r@[j].0, r@[j].1),
                forall|j: int, l: int|
                    0 <= j < l < r@.len() ==> #[trigger] r@[j].0 != #[trigger] r@[l].0,
            decreases self.entries@.len() - i,
        {
            let ghost before = *self;
            let picked: bool = choice.pick(&self.entries[i].0, &self.entries[i].1);
            proof {
                self.lemma_walk();
            }
            if picked {
                let last: usize = self.entries.len() - 1;
                let p0: u128 = self.entries[i].0.pack();
                let e = self.entries.swap_remove(i);
                fx_remove(&mut self.index, p0);
                if i < last {
                    let q: u128 = self.entries[i].0.pack();
                    fx_insert(&mut self.index, q, i);
                }
                assert forall|k2: K| #[trigger] k2.packed() == p0 implies k2 == e.0 by {
                    K::packed_injective(k2, e.0);
                }
                assert(before.walk()[i as int] == e);
                assert(self@ =~= before@.remove(e.0));
                let ghost r0 = r@;
                r.push(e);
                assert(forall|j: int| 0 <= j < r0.len() ==> r@[j] == r0[j]);
                assert(r@[r0.len() as int].0 == e.0);
            } else {
                i = i + 1;
            }
        }
        proof {
            self.lemma_walk();
            assert forall|k: K| #[trigger] self@.contains_key(k) implies !p(k, self@[k]) by {
                let j = choose|j: int| 0 <= j < self.walk().len() && #[trigger] self.walk()[j].0 == k;
                assert(self.entries@[j] == self.walk()[j]);
            }
            assert(self@ =~= rest(old(self)@, p));
        }
        r
    }
}

/// The list under a key, empty where there is none.
pub open spec fn list_of<K, V>(m: Map<K, Vec<V>>, k: K) -> Seq<V> {
    if m.contains_key(k) {
        m[k]@
    } else {
        Seq::empty()
    }
}

/// A value was put at the end of the list under a key.
pub open spec fn pushed<K, V>(before: Map<K, Vec<V>>, after: Map<K, Vec<V>>, k: K, v: V) -> bool {
    &&& after.contains_key(k)
    &&& after == before.insert(k, after[k])
    &&& after[k]@ == list_of(before, k).push(v)
}

/// The last value of the list under a key was taken, and with it an empty list.
pub open spec fn popped<K, V>(before: Map<K, Vec<V>>, after: Map<K, Vec<V>>, k: K) -> bool {
    let n = list_of(before, k).len();
    if n == 0 {
        after == before
    } else if n == 1 {
        after == before.remove(k)
    } else {
        &&& after == before.insert(k, after[k])
        &&& after[k]@ == before[k]@.drop_last()
    }
}

/// Puts a value at the end of the list under a key.
pub fn push_under<K: Key + Copy, V>(t: &mut Table<K, Vec<V>>, k: K, v: V)
    requires
        old(t).wf(),
    ensures
        final(t).wf(),
        pushed(old(t)@, final(t)@, k, v),
{
    match t.get_mut(k) {
        Some(list) => {
            list.push(v);
            return;
        },
        None => {},
    }
    let mut list: Vec<V> = Vec::new();
    list.push(v);
    t.insert(k, list);
    assert(t@[k]@ =~= Seq::<V>::empty().push(v));
}

/// Takes the last value of the list under a key, and with it an empty list.
pub fn pop_under<K: Key + Copy, V>(t: &mut Table<K, Vec<V>>, k: K) -> (r: Option<V>)
    requires
        old(t).wf(),
    ensures
        final(t).wf(),
        popped(old(t)@, final(t)@, k),
        r == (if list_of(old(t)@, k).len() == 0 {
            None
        } else {
            Some(list_of(old(t)@, k).last())
        }),
        r is None ==> *final(t) == *old(t),
{
    let n: usize = match t.get(k) {
        Some(list) => list.len(),
        None => 0,
    };
    if n == 0 {
        return None;
    }
    if n == 1 {
        return match t.remove(k) {
            Some(mut list) => list.pop(),
            None => None,
        };
    }
    match t.get_mut(k) {
        Some(list) => list.pop(),
        None => None,
    }
}

/// Drops from every list the values that a choice does not keep. Empty lists stay.
pub fn filter_under<K: Key, V, C: Keeps<V>>(t: &mut Table<K, Vec<V>>, c: &C)
    requires
        old(t).wf(),
    ensures
        final(t).wf(),
        final(t)@.dom() == old(t)@.dom(),
        forall|k: K| #[trigger]
            old(t)@.contains_key(k) ==> final(t)@[k]@ == kept(old(t)@[k]@, keeping(*c)),
{
    let ghost e = t.entries@;
    let ghost p = keeping::<V, C>(*c);
    let mut i: usize = 0;
    while i < t.entries.len()
        invariant
            i <= e.len(),
            e == old(t).entries@,
            t.entries@.len() == e.len(),
            t.index == old(t).index,
            p == keeping::<V, C>(*c),
            forall|j: int|
                #![trigger t.entries@[j]]
                0 <= j < e.len() ==> t.entries@[j].0 == e[j].0,
            forall|j: int|
                #![trigger t.entries@[j]]
                0 <= j < i ==> t.entries@[j].1@ == kept(e[j].1@, p),
            forall|j: int|
                #![trigger t.entries@[j]]
                i <= j < e.len() ==> t.entries@[j].1 == e[j].1,
        decreases e.len() - i,
    {
        keep_in(&mut t.entries[i].1, c);
        i = i + 1;
    }
    assert(t@.dom() =~= old(t)@.dom());
    assert forall|k: K| #[trigger] old(t)@.contains_key(k) implies t@[k]@ == kept(old(t)@[k]@, p) by {
        let n = fx_pairs(t.index)[k.packed()] as int;
        assert(t.entries@[n].1@ == kept(e[n].1@, p));
    }
}

} // verus!
