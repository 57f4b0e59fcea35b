//! Tables keyed by a name, in which no name occurs twice.
use crate::lists::{keep_in, keeping, kept, Keeps};
use crate::table::pushed;
use crate::text::same;
use vstd::prelude::*;

verus! {

/// A finite map from names to values.
pub struct NameTable<V> {
    entries: Vec<(String, V)>,
}

/// Some entry carries the name.
pub open spec fn named<V>(e: Seq<(String, V)>, name: Seq<char>) -> bool {
    exists|i: int| 0 <= i < e.len() && #[trigger] e[i].0@ == name
}

/// The position of the entry that carries the name.
pub open spec fn place<V>(e: Seq<(String, V)>, name: Seq<char>) -> int {
    choose|i: int| 0 <= i < e.len() && #[trigger] e[i].0@ == name
}

/// No two entries carry one name.
pub open spec fn distinct<V>(e: Seq<(String, V)>) -> bool {
    forall|i: int, j: int| 0 <= i < j < e.len() ==> #[trigger] e[i].0@ != #[trigger] e[j].0@
}

/// The map that entries make.
pub open spec fn by_name<V>(e: Seq<(String, V)>) -> Map<Seq<char>, V> {
    Map::new(|n: Seq<char>| named(e, n), |n: Seq<char>| e[place(e, n)].1)
}

impl<V> View for NameTable<V> {
    type V = Map<Seq<char>, V>;

    closed spec fn view(&self) -> Map<Seq<char>, V> {
        by_name(self.entries@)
    }
}

impl<V> NameTable<V> {
    pub closed spec fn wf(&self) -> bool {
        distinct(self.entries@)
    }

    /// The entries in the order in which a walk meets them.
    pub closed spec fn walk(&self) -> Seq<(String, V)> {
        self.entries@
    }

    /// A walk meets each entry of the map once and nothing else.
    pub proof fn lemma_walk(&self)
        requires
            self.wf(),
        ensures
            self@ == by_name(self.walk()),
            distinct(self.walk()),
            forall|i: int|
                #![trigger self.walk()[i]]
                0 <= i < self.walk().len() ==> self@.contains_key(self.walk()[i].0@)
                    && self@[self.walk()[i].0@] == self.walk()[i].1,
            forall|n: Seq<char>| #[trigger]
                self@.contains_key(n) ==> exists|i: int|
                    0 <= i < self.walk().len() && #[trigger] self.walk()[i].0@ == n,
    {
        assert forall|i: int| #![trigger self.walk()[i]] 0 <= i < self.walk().len() implies self@.contains_key(
            self.walk()[i].0@,
        ) && self@[self.walk()[i].0@] == self.walk()[i].1 by {
            let n = self.walk()[i].0@;
            assert(self.entries@[i].0@ == n);
            let p = place(self.entries@, n);
            assert(self.entries@[p].0@ == n);
        }
        assert forall|n: Seq<char>| #[trigger] self@.contains_key(n) implies exists|i: int|
            0 <= i < self.walk().len() && #[trigger] self.walk()[i].0@ == n by {
            assert(named(self.entries@, n));
            let p = place(self.entries@, n);
            assert(self.walk()[p].0@ == n);
        }
    }

    pub fn new() -> (t: Self)
        ensures
            t.wf(),
            t@ == Map::<Seq<char>, V>::empty(),
    {
        let t: NameTable<V> = NameTable { entries: Vec::new() };
        assert(t@ =~= Map::<Seq<char>, V>::empty());
        t
    }

    pub fn len(&self) -> (n: usize)
        ensures
            n == self.walk().len(),
    {
        self.entries.len()
    }

    /// The entry that a walk meets at position `i`.
    pub fn at(&self, i: usize) -> (r: (&String, &V))
        requires
            i < self.walk().len(),
        ensures
            *r.0 == self.walk()[i as int].0,
            *r.1 == self.walk()[i as int].1,
    {
        let e = &self.entries[i];
        (&e.0, &e.1)
    }

    /// The value that a walk meets at position `i`, to change it.
    pub fn at_mut(&mut self, i: usize) -> (r: &mut V)
        requires
            old(self).wf(),
            i < old(self).walk().len(),
        ensures
            final(self).wf(),
            *r == old(self).walk()[i as int].1,
            final(self).walk() == old(self).walk().update(
                i as int,
                (old(self).walk()[i as int].0, *final(r)),
            ),
    {
        let ghost e = self.entries@;
        let r = &mut self.entries[i].1;
        assert forall|x: (String, V)| x.0 == e[i as int].0 implies distinct(
            #[trigger] e.update(i as int, x),
        ) by {
            lemma_places(e, e.update(i as int, x), e[i as int].0@);
        }
        r
    }

    fn find(&self, name: &str) -> (r: Option<usize>)
        requires
            self.wf(),
        ensures
            match r {
                Some(i) => i < self.entries@.len() && self.entries@[i as int].0@ == name@
                    && place(self.entries@, name@) == i && named(self.entries@, name@),
                None => !named(self.entries@, name@),
            },
    {
        let mut i: usize = 0;
        while i < self.entries.len()
            invariant
                self.wf(),
                i <= self.entries@.len(),
                forall|j: int| 0 <= j < i ==> #[trigger] self.entries@[j].0@ != name@,
            decreases self.entries@.len() - i,
        {
            if same(self.entries[i].0.as_str(), name) {
                assert(self.entries@[i as int].0@ == name@);
                let ghost p = place(self.entries@, name@);
                assert(self.entries@[p].0@ == name@);
                return Some(i);
            }
            i = i + 1;
        }
        None
    }

    pub fn contains_key(&self, name: &str) -> (r: bool)
        requires
            self.wf(),
        ensures
            r == self@.contains_key(name@),
    {
        self.find(name).is_some()
    }

    pub fn get(&self, name: &str) -> (r: Option<&V>)
        requires
            self.wf(),
        ensures
            match r {
                Some(v) => self@.contains_key(name@) && *v == self@[name@],
                None => !self@.contains_key(name@),
            },
    {
        match self.find(name) {
            Some(i) => Some(&self.entries[i].1),
            None => None,
        }
    }

    pub fn get_mut(&mut self, name: &str) -> (r: Option<&mut V>)
        requires
            old(self).wf(),
        ensures
            final(self).wf(),
            match r {
                Some(v) => old(self)@.contains_key(name@) && *v == old(self)@[name@] && final(self)@ =~= old(self)@.insert(name@, *final(v)),
                None => !old(self)@.contains_key(name@) && final(self)@ == old(self)@,
            },
    {
        match self.find(name) {
            Some(i) => {
                let ghost e = self.entries@;
                let r = &mut self.entries[i].1;
                assert forall|x: (String, V)| x.0 == e[i as int].0 implies distinct(
                    #[trigger] e.update(i as int, x),
                ) && by_name(e.update(i as int, x)) =~= by_name(e).insert(name@, x.1) by {
                    let e2 = e.update(i as int, x);
                    assert forall|n: Seq<char>| true implies #[trigger] named(e2, n) == named(e, n)
                        && (named(e, n) ==> place(e2, n) == place(e, n)) by {
                        lemma_places(e, e2, n);
                    }
                    lemma_places(e, e2, name@);
                    assert(e2[i as int].1 == x.1);
                }
                Some(r)
            },
            None => None,
        }
    }

    pub fn insert(&mut self, name: String, v: V)
        requires
            old(self).wf(),
        ensures
            final(self).wf(),
            final(self)@ == old(self)@.insert(name@, v),
    {
        let ghost e = self.entries@;
        match self.find(name.as_str()) {
            Some(i) => {
                self.entries[i] = (name, v);
                assert forall|n: Seq<char>| true implies #[trigger] named(self.entries@, n) == named(
                    e,
                    n,
                ) && (named(e, n) ==> place(self.entries@, n) == place(e, n)) by {
                    lemma_places(e, self.entries@, n);
                }
            },
            None => {
                self.entries.push((name, v));
                let ghost e2 = self.entries@;
                assert(e2[e.len() as int].0@ == name@);
                assert(distinct(e2)) by {
                    assert forall|i: int, j: int| 0 <= i < j < e2.len() implies #[trigger] e2[i].0@
                        != #[trigger] e2[j].0@ by {
                        assert(e2[i] == e[i]);
                    }
                }
                assert forall|n: Seq<char>| n != name@ implies #[trigger] named(e2, n) == named(
                    e,
                    n,
                ) && (named(e, n) ==> e2[place(e2, n)] == e[place(e, n)]) by {
                    if named(e, n) {
                        let p = place(e, n);
                        assert(e2[p].0@ == n);
                        let q = place(e2, n);
                        assert(e2[q].0@ == n);
                    }
                    if named(e2, n) {
                        let q = place(e2, n);
                        assert(e2[q].0@ == n);
                        assert(e[q].0@ == n);
                    }
                }
                assert(place(e2, name@) == e.len()) by {
                    let q = place(e2, name@);
                    assert(e2[q].0@ == name@);
                }
            },
        }
        assert(self@ =~= old(self)@.insert(name@, v));
    }

    pub fn remove(&mut self, name: &str) -> (r: Option<V>)
        requires
            old(self).wf(),
        ensures
            final(self).wf(),
            final(self)@ == old(self)@.remove(name@),
            r == (if old(self)@.contains_key(name@) {
                Some(old(self)@[name@])
            } else {
                None
            }),
    {
        let ghost e = self.entries@;
        match self.find(name) {
            Some(i) => {
                let x = self.entries.remove(i);
                let ghost e2 = self.entries@;
                proof {
                    lemma_removed(e, e2, i as int);
                    assert(self@ =~= old(self)@.remove(name@));
                }
                Some(x.1)
            },
            None => {
                assert(self@ =~= old(self)@.remove(name@));
                None
            },
        }
    }
}

/// Entries with the same names in the same places make maps with the same places.
pub proof fn lemma_places<V>(e: Seq<(String, V)>, e2: Seq<(String, V)>, n: Seq<char>)
    requires
        e.len() == e2.len(),
        forall|j: int| 0 <= j < e.len() ==> (#[trigger] e2[j]).0@ == e[j].0@,
        distinct(e),
    ensures
        named(e2, n) == named(e, n),
        named(e, n) ==> place(e2, n) == place(e, n),
        distinct(e2),
{
    if named(e, n) {
        let p = place(e, n);
        assert(e[p].0@ == n);
        assert(e2[p].0@ == n);
        let q = place(e2, n);
        assert(e2[q].0@ == n);
        assert(e[q].0@ == n);
    }
    if named(e2, n) {
        let q = place(e2, n);
        assert(e2[q].0@ == n);
        assert(e[q].0@ == n);
    }
    assert forall|i: int, j: int| 0 <= i < j < e2.len() implies #[trigger] e2[i].0@
        != #[trigger] e2[j].0@ by {
        assert(e[i].0@ != e[j].0@);
    }
}

proof fn lemma_removed<V>(e: Seq<(String, V)>, e2: Seq<(String, V)>, i: int)
    requires
        0 <= i < e.len(),
        e2 == e.remove(i),
        distinct(e),
    ensures
        distinct(e2),
        by_name(e2) =~= by_name(e).remove(e[i].0@),
{
    assert forall|a: int, b: int| 0 <= a < b < e2.len() implies #[trigger] e2[a].0@
        != #[trigger] e2[b].0@ by {
        let x = if a < i {
            a
        } else {
            a + 1
        };
        let y = if b < i {
            b
        } else {
            b + 1
        };
        assert(e2[a] == e[x]);
        assert(e2[b] == e[y]);
    }
    assert forall|n: Seq<char>| n != e[i].0@ implies #[trigger] named(e2, n) == named(e, n) && (named(
        e,
        n,
    ) ==> e2[place(e2, n)] == e[place(e, n)]) by {
        if named(e, n) {
            let p = place(e, n);
            assert(e[p].0@ == n);
            let p2 = if p < i {
                p
            } else {
                p - 1
            };
            assert(e2[p2] == e[p]);
            assert(e2[p2].0@ == n);
            let q = place(e2, n);
            assert(e2[q].0@ == n);
        }
        if named(e2, n) {
            let q = place(e2, n);
            let q2 = if q < i {
                q
            } else {
                q + 1
            };
            assert(e2[q] == e[q2]);
            assert(e[q2].0@ == n);
        }
    }
    assert(!named(e2, e[i].0@)) by {
        if named(e2, e[i].0@) {
            let q = place(e2, e[i].0@);
            let q2 = if q < i {
                q
            } else {
                q + 1
            };
            assert(e2[q] == e[q2]);
            assert(e[q2].0@ == e[i].0@);
        }
    }
}

/// Puts a value at the end of the list under a name.
pub fn push_named<V>(t: &mut NameTable<Vec<V>>, name: String, v: V)
    requires
        old(t).wf(),
    ensures
        final(t).wf(),
        pushed(old(t)@, final(t)@, name@, v),
{
    match t.get_mut(name.as_str()) {
        Some(list) => {
            list.push(v);
            return;
        },
        None => {},
    }
    let mut list: Vec<V> = Vec::new();
    list.push(v);
    t.insert(name, list);
}

/// The lists after a choice has dropped values, and names whose list is empty.
pub open spec fn lists_kept<V>(
    before: Map<Seq<char>, Vec<V>>,
    after: Map<Seq<char>, Vec<V>>,
    p: spec_fn(V) -> bool,
) -> bool {
    &&& forall|n: Seq<char>| #[trigger]
        after.contains_key(n) <==> before.contains_key(n) && kept(before[n]@, p).len() > 0
    &&& forall|n: Seq<char>| #[trigger] after.contains_key(n) ==> after[n]@ == kept(before[n]@, p)
}

/// Drops from every list the values that a choice does not keep, and names whose list is empty.
pub fn filter_named<V, C: Keeps<V>>(t: &mut NameTable<Vec<V>>, c: &C)
    requires
        old(t).wf(),
    ensures
        final(t).wf(),
        lists_kept(old(t)@, final(t)@, keeping(*c)),
{
    let ghost p = keeping::<V, C>(*c);
    let ghost before = t@;
    let mut i: usize = 0;
    proof {
        t.lemma_walk();
    }
    while i < t.entries.len()
        invariant
            t.wf(),
            i <= t.entries@.len(),
            p == keeping::<V, C>(*c),
            before == old(t)@,
            forall|n: Seq<char>| #[trigger]
                t@.contains_key(n) ==> before.contains_key(n),
            forall|n: Seq<char>| #[trigger]
                before.contains_key(n) && !t@.contains_key(n) ==> kept(before[n]@, p).len() == 0,
            forall|j: int|
                #![trigger t.entries@[j]]
                0 <= j < i ==> t.entries@[j].1@ == kept(before[t.entries@[j].0@]@, p)
                    && t.entries@[j].1@.len() > 0,
            forall|j: int|
                #![trigger t.entries@[j]]
                i <= j < t.entries@.len() ==> t.entries@[j].1 == before[t.entries@[j].0@],
        decreases t.entries@.len() - i,
    {
        let ghost e = t.entries@;
        let ghost t0 = *t;
        proof {
            t.lemma_walk();
            assert(t.walk()[i as int] == e[i as int]);
        }
        keep_in(&mut t.entries[i].1, c);
        let ghost e1 = t.entries@;
        assert(e1 =~= e.update(i as int, e1[i as int]));
        assert(e1[i as int].0 == e[i as int].0);
        proof {
            assert forall|n: Seq<char>| true implies #[trigger] named(e1, n) == named(e, n) by {
                lemma_places(e, e1, n);
            }
            lemma_places(e, e1, e[i as int].0@);
        }
        if t.entries[i].1.len() == 0 {
            let _ = t.entries.remove(i);
            proof {
                lemma_removed(e1, t.entries@, i as int);
            }
        } else {
            i = i + 1;
        }
    }
    proof {
        t.lemma_walk();
        assert forall|n: Seq<char>| #[trigger] t@.contains_key(n) implies t@[n]@ == kept(before[n]@, p)
            && t@[n]@.len() > 0 by {
            let j = choose|j: int| 0 <= j < t.walk().len() && #[trigger] t.walk()[j].0@ == n;
            assert(t.entries@[j] == t.walk()[j]);
        }
    }
}

} // verus!
