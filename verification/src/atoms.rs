//! Atoms: numbers for names, counted by how often a name was added.
use crate::bytes::{copy_clipped, clipped, push_i32, push_u32, i32_bits, i32_bytes, lemma_read_back_u32, u32_at, u32_bytes};
use crate::table::Table;
use crate::text::{byte_units, vararg_to_u16};
use crate::wire::{
    block, head, header, lemma_word_told, max_reply_vararg, reply_handle, reply_room, reply_status, reply_vararg, status, vararg,
    vararg_of, Reply, STATUS_INVALID_HANDLE, STATUS_INVALID_PARAMETER, STATUS_OBJECT_NAME_NOT_FOUND,
};
use vstd::prelude::*;

verus! {

/// An atom: the bytes of its name, and how often it was added.
pub struct Atom {
    pub name: Vec<u8>,
    pub count: i32,
}

/// A name, and the number of its atom.
pub struct AtomName {
    pub units: Vec<u16>,
    pub atom: u32,
}

/// All atoms.
pub struct Atoms {
    pub next: u32,
    pub atoms: Table<u32, Atom>,
    pub names: Vec<AtomName>,
}

/// The number of the atom with a name.
pub open spec fn named_atom(s: Seq<AtomName>, units: Seq<u16>) -> Option<u32>
    decreases s.len(),
{
    if s.len() == 0 {
        None
    } else if s.last().units@ == units {
        Some(s.last().atom)
    } else {
        named_atom(s.drop_last(), units)
    }
}

/// The count after an atom was added once more. The largest count stays.
pub open spec fn one_more(n: i32) -> i32 {
    if n == i32::MAX {
        n
    } else {
        (n + 1) as i32
    }
}

impl Atoms {
    /// Every name is that of its atom, no name occurs twice, and every number that was given out lies
    /// below the next.
    pub open spec fn wf(&self) -> bool {
        &&& self.atoms.wf()
        &&& forall|i: int|
            #![trigger self.names@[i]]
            0 <= i < self.names@.len() ==> self.atoms@.contains_key(self.names@[i].atom) && byte_units(
                self.atoms@[self.names@[i].atom].name@,
            ) == self.names@[i].units@
        &&& forall|a: u32| #[trigger]
            self.atoms@.contains_key(a) ==> a < self.next && self.atoms@[a].count >= 1
        &&& forall|i: int, j: int|
            0 <= i < j < self.names@.len() ==> #[trigger] self.names@[i].units@
                != #[trigger] self.names@[j].units@
    }

    /// The number of the atom with a name.
    pub open spec fn find(&self, units: Seq<u16>) -> Option<u32> {
        named_atom(self.names@, units)
    }

    /// No atoms; the first will have the number `first`.
    pub fn new(first: u32) -> (r: Atoms)
        ensures
            r.wf(),
            r.next == first,
            r.atoms@ == Map::<u32, Atom>::empty(),
            r.names@.len() == 0,
    {
        Atoms { next: first, atoms: Table::new(), names: Vec::new() }
    }

    fn position(&self, units: &Vec<u16>) -> (r: Option<usize>)
        ensures
            match r {
                Some(i) => i < self.names@.len() && self.names@[i as int].units@ == units@ && self.find(
                    units@,
                ) == Some(self.names@[i as int].atom),
                None => self.find(units@) is None && forall|j: int|
                    0 <= j < self.names@.len() ==> #[trigger] self.names@[j].units@ != units@,
            },
    {
        let ghost s = self.names@;
        let mut i: usize = self.names.len();
        assert(s.take(i as int) =~= s);
        while i > 0
            invariant
                i <= s.len(),
                s == self.names@,
                named_atom(s, units@) == named_atom(s.take(i as int), units@),
                forall|j: int| i <= j < s.len() ==> #[trigger] s[j].units@ != units@,
            decreases i,
        {
            i = i - 1;
            proof {
                assert(s.take(i + 1).drop_last() =~= s.take(i as int));
                assert(s.take(i + 1).last() == s[i as int]);
            }
            if same_units(&self.names[i].units, units) {
                return Some(i);
            }
        }
        None
    }

    /// The number of the atom with a name.
    pub fn lookup(&self, units: &Vec<u16>) -> (r: Option<u32>)
        ensures
            r == self.find(units@),
    {
        match self.position(units) {
            Some(i) => Some(self.names[i].atom),
            None => None,
        }
    }

    /// Adds an atom, or counts the one that has the name once more.
    #[verifier::rlimit(40)]
    pub fn add_name(&mut self, name: Vec<u8>) -> (r: u32)
        requires
            old(self).wf(),
            old(self).find(byte_units(name@)) is None ==> old(self).next < u32::MAX,
        ensures
            final(self).wf(),
            atom_added(*old(self), *final(self), name@, r),
    {
        let units = vararg_to_u16(name.as_slice());
        match self.position(&units) {
            Some(i) => {
                let atom: u32 = self.names[i].atom;
                let ghost u = self.names@[i as int].units@;
                match self.atoms.get_mut(atom) {
                    Some(a) => {
                        if a.count < i32::MAX {
                            a.count = a.count + 1;
                        }
                    },
                    None => {},
                }
                return atom;
            },
            None => {},
        }
        let atom: u32 = self.next;
        self.next = self.next + 1;
        let ghost s = self.names@;
        let ghost n = name@;
        self.atoms.insert(atom, Atom { name, count: 1 });
        self.names.push(AtomName { units, atom });
        proof {
            let t = self.names@;
            assert(t.drop_last() =~= s);
            assert forall|i: int| #![trigger t[i]] 0 <= i < t.len() implies self.atoms@.contains_key(
                t[i].atom,
            ) && byte_units(self.atoms@[t[i].atom].name@) == t[i].units@ by {
                if i < s.len() {
                    assert(t[i] == s[i]);
                }
            }
            assert forall|i: int, j: int| 0 <= i < j < t.len() implies #[trigger] t[i].units@
                != #[trigger] t[j].units@ by {
                assert(t[i] == s[i]);
                if j < s.len() {
                    assert(t[j] == s[j]);
                }
            }
        }
        atom
    }

    /// Counts an atom once less. Without a count it is gone.
    #[verifier::rlimit(40)]
    pub fn remove_atom(&mut self, atom: u32)
        requires
            old(self).wf(),
        ensures
            final(self).wf(),
            atom_deleted(*old(self), *final(self), atom),
    {
        let (last, units): (bool, Vec<u16>) = match self.atoms.get(atom) {
            Some(a) => (a.count <= 1, vararg_to_u16(a.name.as_slice())),
            None => {
                return;
            },
        };
        assert(self.atoms@.contains_key(atom));
        if !last {
            match self.atoms.get_mut(atom) {
                Some(a) => {
                    a.count = a.count - 1;
                },
                None => {},
            }
            return;
        }
        let ghost s = self.names@;
        let _ = self.atoms.remove(atom);
        match self.position(&units) {
            Some(i) => {
                let _ = self.names.remove(i);
                proof {
                    let t = self.names@;
                    lemma_names_without(s, i as int);
                    assert forall|k: int| #![trigger t[k]] 0 <= k < t.len() implies self.atoms@.contains_key(
                        t[k].atom,
                    ) && byte_units(self.atoms@[t[k].atom].name@) == t[k].units@ by {
                        let q = if k < i {
                            k
                        } else {
                            k + 1
                        };
                        assert(t[k] == s[q]);
                        if s[q].atom == atom {
                            assert(s[q].units@ == s[i as int].units@);
                        }
                    }
                    assert forall|x: int, y: int| 0 <= x < y < t.len() implies #[trigger] t[x].units@
                        != #[trigger] t[y].units@ by {
                        let p = if x < i {
                            x
                        } else {
                            x + 1
                        };
                        let q = if y < i {
                            y
                        } else {
                            y + 1
                        };
                        assert(t[x] == s[p] && t[y] == s[q]);
                        assert(s[p].units@ != s[q].units@);
                    }
                }
            },
            None => {},
        }
    }

    /// Adds an atom even if the name has one: the name stands for the new one from now on.
    #[verifier::rlimit(40)]
    pub fn add_anew(&mut self, name: Vec<u8>) -> (r: u32)
        requires
            old(self).wf(),
            old(self).next < u32::MAX,
        ensures
            final(self).wf(),
            atom_anew(*old(self), *final(self), name@, r),
    {
        let units = vararg_to_u16(name.as_slice());
        let atom: u32 = self.next;
        self.next = self.next + 1;
        let ghost s = self.names@;
        match self.position(&units) {
            Some(i) => {
                let _ = self.names.remove(i);
                proof {
                    lemma_names_without(s, i as int);
                    let t = self.names@;
                    assert forall|k: int| #![trigger t[k]] 0 <= k < t.len() implies self.atoms@.contains_key(
                        t[k].atom,
                    ) && byte_units(self.atoms@[t[k].atom].name@) == t[k].units@ && t[k].units@
                        != units@ by {
                        let q = if k < i {
                            k
                        } else {
                            k + 1
                        };
                        assert(t[k] == s[q]);
                        if q < i {
                            assert(s[q].units@ != s[i as int].units@);
                        } else {
                            assert(s[i as int].units@ != s[q].units@);
                        }
                    }
                    assert forall|x: int, y: int| 0 <= x < y < t.len() implies #[trigger] t[x].units@
                        != #[trigger] t[y].units@ by {
                        let p = if x < i {
                            x
                        } else {
                            x + 1
                        };
                        let q = if y < i {
                            y
                        } else {
                            y + 1
                        };
                        assert(t[x] == s[p] && t[y] == s[q]);
                        assert(s[p].units@ != s[q].units@);
                    }
                }
            },
            None => {},
        }
        let ghost t = self.names@;
        let ghost u0 = units@;
        assert(forall|u: Seq<u16>| #[trigger]
            named_atom(t, u) == (if u == u0 {
                None
            } else {
                named_atom(s, u)
            }));
        self.atoms.insert(atom, Atom { name, count: 1 });
        self.names.push(AtomName { units, atom });
        proof {
            let z = self.names@;
            assert(z.drop_last() =~= t);
            assert forall|u: Seq<u16>| #[trigger] self.find(u) == (if u == u0 {
                Some(atom)
            } else {
                old(self).find(u)
            }) by {
                assert(named_atom(z, u) == (if u == u0 {
                    Some(atom)
                } else {
                    named_atom(t, u)
                }));
            }
            assert forall|i: int| #![trigger z[i]] 0 <= i < z.len() implies self.atoms@.contains_key(
                z[i].atom,
            ) && byte_units(self.atoms@[z[i].atom].name@) == z[i].units@ by {
                if i < t.len() {
                    assert(z[i] == t[i]);
                    assert(t[i].atom < old(self).next);
                }
            }
            assert forall|i: int, j: int| 0 <= i < j < z.len() implies #[trigger] z[i].units@
                != #[trigger] z[j].units@ by {
                assert(z[i] == t[i]);
                if j < t.len() {
                    assert(z[j] == t[j]);
                }
            }
        }
        atom
    }
}

/// A new atom was added under a name.
pub open spec fn atom_anew(before: Atoms, after: Atoms, name: Seq<u8>, r: u32) -> bool {
    &&& r == before.next
    &&& after.next == before.next + 1
    &&& after.atoms@.contains_key(r)
    &&& after.atoms@ == before.atoms@.insert(r, after.atoms@[r])
    &&& after.atoms@[r].name@ == name
    &&& after.atoms@[r].count == 1
    &&& forall|u: Seq<u16>| #[trigger]
        after.find(u) == (if u == byte_units(name) {
            Some(r)
        } else {
            before.find(u)
        })
}

/// An atom was added. A name that has one already keeps its number and counts once more; a new name
/// has the next number.
pub open spec fn atom_added(before: Atoms, after: Atoms, name: Seq<u8>, r: u32) -> bool {
    match before.find(byte_units(name)) {
        Some(a) => {
            let x = before.atoms@[a];
            &&& r == a
            &&& after == (Atoms { atoms: after.atoms, ..before })
            &&& after.atoms@ == before.atoms@.insert(a, Atom { count: one_more(x.count), ..x })
        },
        None => atom_anew(before, after, name, r),
    }
}

/// An atom was counted once less. Without a count it is gone, and its name stands for nothing.
pub open spec fn atom_deleted(before: Atoms, after: Atoms, atom: u32) -> bool {
    if !before.atoms@.contains_key(atom) {
        after == before
    } else if before.atoms@[atom].count > 1 {
        let x = before.atoms@[atom];
        &&& after == (Atoms { atoms: after.atoms, ..before })
        &&& after.atoms@ == before.atoms@.insert(atom, Atom { count: (x.count - 1) as i32, ..x })
    } else {
        &&& after.next == before.next
        &&& after.atoms@ == before.atoms@.remove(atom)
        &&& forall|u: Seq<u16>| #[trigger]
            after.find(u) == (if u == byte_units(before.atoms@[atom].name@) {
                None
            } else {
                before.find(u)
            })
    }
}

proof fn lemma_names_without(s: Seq<AtomName>, i: int)
    requires
        0 <= i < s.len(),
        forall|x: int, y: int| 0 <= x < y < s.len() ==> #[trigger] s[x].units@ != #[trigger] s[y].units@,
    ensures
        forall|u: Seq<u16>| #[trigger]
            named_atom(s.remove(i), u) == (if u == s[i].units@ {
                None
            } else {
                named_atom(s, u)
            }),
    decreases s.len(),
{
    let t = s.remove(i);
    let d = s.drop_last();
    assert forall|u: Seq<u16>| #[trigger] named_atom(t, u) == (if u == s[i].units@ {
        None
    } else {
        named_atom(s, u)
    }) by {
        if i == s.len() - 1 {
            assert(t =~= d);
            if u == s[i].units@ {
                lemma_unnamed(d, u);
            }
        } else {
            assert forall|x: int, y: int| 0 <= x < y < d.len() implies #[trigger] d[x].units@
                != #[trigger] d[y].units@ by {
                assert(d[x] == s[x] && d[y] == s[y]);
            }
            lemma_names_without(d, i);
            assert(t.drop_last() =~= d.remove(i));
            assert(t.last() == s.last());
            assert(d[i] == s[i]);
            assert(s[i].units@ != s[s.len() - 1].units@);
            assert(named_atom(d.remove(i), u) == (if u == d[i].units@ {
                None
            } else {
                named_atom(d, u)
            }));
        }
    }
}

proof fn lemma_unnamed(s: Seq<AtomName>, u: Seq<u16>)
    requires
        forall|x: int| 0 <= x < s.len() ==> #[trigger] s[x].units@ != u,
    ensures
        named_atom(s, u) is None,
    decreases s.len(),
{
    if s.len() > 0 {
        let d = s.drop_last();
        assert forall|x: int| 0 <= x < d.len() implies #[trigger] d[x].units@ != u by {
            assert(d[x] == s[x]);
        }
        lemma_unnamed(d, u);
        assert(s[s.len() - 1].units@ != u);
    }
}

/// The answer to a client whose atom has the number `a`.
pub open spec fn atom_answer(a: u32) -> Seq<u8> {
    block(head(0, 0) + u32_bytes(a))
}

/// The answer to a client that looks for a name.
pub open spec fn find_answer(s: Atoms, name: Seq<u8>) -> Seq<u8> {
    match s.find(byte_units(name)) {
        Some(a) => atom_answer(a),
        None => status(STATUS_OBJECT_NAME_NOT_FOUND),
    }
}

/// A client reads the error 0 and the number of its atom out of the answer.
pub proof fn lemma_answer_tells_atom(a: u32)
    ensures
        u32_at(atom_answer(a), 0) == 0,
        u32_at(atom_answer(a), 8) == a,
{
    let s = atom_answer(a);
    assert(s.subrange(0, 4) =~= u32_bytes(0));
    assert(s.subrange(8, 12) =~= u32_bytes(a));
    lemma_read_back_u32(s, 0, 0);
    lemma_read_back_u32(s, 8, a);
}

/// A name is found under the number that adding it gave; adding it again gives the same; and two
/// different names have different numbers.
pub proof fn lemma_atoms_stand_for_names(
    s0: Atoms,
    s1: Atoms,
    s2: Atoms,
    n1: Seq<u8>,
    n2: Seq<u8>,
    r1: u32,
    r2: u32,
)
    requires
        s0.wf(),
        s1.wf(),
        atom_added(s0, s1, n1, r1),
        atom_added(s1, s2, n2, r2),
    ensures
        s1.find(byte_units(n1)) == Some(r1),
        s2.find(byte_units(n1)) == Some(r1),
        s2.find(byte_units(n2)) == Some(r2),
        find_answer(s1, n1) == atom_answer(r1),
        find_answer(s2, n1) == atom_answer(r1),
        find_answer(s2, n2) == atom_answer(r2),
        r1 == r2 <==> byte_units(n1) == byte_units(n2),
{
    assert(s1.find(byte_units(n1)) == Some(r1));
    assert(s1.atoms@.contains_key(r1)) by {
        if s0.find(byte_units(n1)) is Some {
            lemma_found(s0, byte_units(n1));
        }
    }
    if s1.find(byte_units(n2)) is Some {
        lemma_found(s1, byte_units(n2));
        lemma_found(s1, byte_units(n1));
    } else {
        assert(r1 < s1.next);
    }
}

proof fn lemma_found(s: Atoms, u: Seq<u16>)
    requires
        s.wf(),
        s.find(u) is Some,
    ensures
        s.atoms@.contains_key(s.find(u)->Some_0),
        byte_units(s.atoms@[s.find(u)->Some_0].name@) == u,
{
    lemma_found_in(s.names@, u);
}

proof fn lemma_found_in(s: Seq<AtomName>, u: Seq<u16>)
    requires
        named_atom(s, u) is Some,
    ensures
        exists|i: int|
            0 <= i < s.len() && (#[trigger] s[i]).units@ == u && s[i].atom == named_atom(s, u)->Some_0,
    decreases s.len(),
{
    if s.last().units@ == u {
        assert(s[s.len() - 1].units@ == u);
    } else {
        lemma_found_in(s.drop_last(), u);
        let i = choose|i: int|
            0 <= i < s.drop_last().len() && (#[trigger] s.drop_last()[i]).units@ == u
                && s.drop_last()[i].atom == named_atom(s, u)->Some_0;
        assert(s[i].units@ == u);
    }
}

/// An atom that was added once and deleted once is gone.
pub proof fn lemma_atom_deleted(s0: Atoms, s1: Atoms, s2: Atoms, name: Seq<u8>, r: u32)
    requires
        s0.find(byte_units(name)) is None,
        atom_added(s0, s1, name, r),
        atom_deleted(s1, s2, r),
    ensures
        s2.find(byte_units(name)) is None,
        find_answer(s2, name) == status(STATUS_OBJECT_NAME_NOT_FOUND),
        !s2.atoms@.contains_key(r),
{
}

/// A name that was added twice has one atom. Deleted once, the atom still stands for the name, and a
/// client that looks for it is answered its number; deleted twice, it stands for nothing, and the client
/// is told that there is no such name.
pub proof fn lemma_atom_is_counted(
    s0: Atoms,
    s1: Atoms,
    s2: Atoms,
    s3: Atoms,
    s4: Atoms,
    name: Seq<u8>,
    a: u32,
    b: u32,
)
    requires
        s0.find(byte_units(name)) is None,
        atom_added(s0, s1, name, a),
        atom_added(s1, s2, name, b),
        atom_deleted(s2, s3, a),
        atom_deleted(s3, s4, a),
    ensures
        a == b,
        s3.find(byte_units(name)) == Some(a),
        find_answer(s3, name) == atom_answer(a),
        s4.find(byte_units(name)) is None,
        find_answer(s4, name) == status(STATUS_OBJECT_NAME_NOT_FOUND),
        !s4.atoms@.contains_key(a),
{
    assert(s1.find(byte_units(name)) == Some(a));
    assert(s2.atoms@[a].count == 2);
    assert(s3.atoms@[a].count == 1);
}

fn same_units(a: &Vec<u16>, b: &Vec<u16>) -> (r: bool)
    ensures
        r == (a@ == b@),
{
    if a.len() != b.len() {
        return false;
    }
    let mut i: usize = 0;
    while i < a.len()
        invariant
            i <= a@.len() == b@.len(),
            forall|j: int| 0 <= j < i ==> a@[j] == b@[j],
        decreases a@.len() - i,
    {
        if a[i] != b[i] {
            return false;
        }
        i = i + 1;
    }
    assert(a@ =~= b@);
    true
}

impl Atoms {
    /// Adds the atom that a request names.
    pub fn handle_add_atom(&mut self, buf: &[u8]) -> (r: Reply)
        requires
            old(self).wf(),
            old(self).find(byte_units(vararg_of(buf@))) is None ==> old(self).next < u32::MAX,
        ensures
            final(self).wf(),
            exists|a: u32| #[trigger]
                atom_added(*old(self), *final(self), vararg_of(buf@), a) && r@ == atom_answer(a),
    {
        let name = vararg(buf);
        let atom: u32 = self.add_name(name);
        reply_handle(0, atom)
    }

    /// Adds the atom that a request of the display driver names: they share one table.
    pub fn handle_add_user_atom(&mut self, buf: &[u8]) -> (r: Reply)
        requires
            old(self).wf(),
            old(self).find(byte_units(vararg_of(buf@))) is None ==> old(self).next < u32::MAX,
        ensures
            final(self).wf(),
            exists|a: u32| #[trigger]
                atom_added(*old(self), *final(self), vararg_of(buf@), a) && r@ == atom_answer(a),
    {
        self.handle_add_atom(buf)
    }

    /// Finds the atom that a request names.
    pub fn handle_find_atom(&self, buf: &[u8]) -> (r: Reply)
        ensures
            r@ == find_answer(*self, vararg_of(buf@)),
    {
        let name = vararg(buf);
        let units = vararg_to_u16(name.as_slice());
        match self.lookup(&units) {
            Some(a) => reply_handle(0, a),
            None => reply_status(STATUS_OBJECT_NAME_NOT_FOUND),
        }
    }

    /// The count and the name of an atom; of the name as much as the client takes.
    pub fn handle_get_atom_information(&self, buf: &[u8], req: Option<u32>) -> (r: Reply)
        requires
            self.wf(),
        ensures
            match req {
                None => r@ == status(STATUS_INVALID_PARAMETER),
                Some(a) => if self.atoms@.contains_key(a) {
                    let x = self.atoms@[a];
                    let part = clipped(x.name@, reply_room(buf@) as int);
                    r@ == block(
                        head(0, part.len() as u32) + i32_bytes(x.count) + u32_bytes(0) + u32_bytes(
                            x.name@.len() as u32,
                        ),
                    ) + part
                } else {
                    r@ == status(STATUS_INVALID_HANDLE)
                },
            },
            req matches Some(a) ==> self.atoms@.contains_key(a) ==> u32_at(r@, 8) == i32_bits(self.atoms@[a].count)
                && u32_at(r@, 16) == self.atoms@[a].name@.len() as u32,
    {
        proof {
            if req is Some && self.atoms@.contains_key(req->Some_0) {
                let x = self.atoms@[req->Some_0];
                lemma_atom_told(
                    i32_bits(x.count),
                    x.name@.len() as u32,
                    clipped(x.name@, reply_room(buf@) as int),
                );
            }
        }
        let atom: u32 = match req {
            Some(a) => a,
            None => {
                return reply_status(STATUS_INVALID_PARAMETER);
            },
        };
        match self.atoms.get(atom) {
            Some(x) => {
                let room: u32 = max_reply_vararg(buf);
                let part = copy_clipped(x.name.as_slice(), room as usize);
                let mut body: Vec<u8> = header(0, part.len() as u32);
                push_i32(&mut body, x.count);
                push_u32(&mut body, 0);
                push_u32(&mut body, x.name.len() as u32);
                reply_vararg(body.as_slice(), part.as_slice())
            },
            None => reply_status(STATUS_INVALID_HANDLE),
        }
    }

    /// Deletes an atom once.
    pub fn handle_delete_atom(&mut self, req: Option<u32>) -> (r: Reply)
        requires
            old(self).wf(),
        ensures
            final(self).wf(),
            match req {
                Some(a) => atom_deleted(*old(self), *final(self), a) && r@ == status(0),
                None => *final(self) == *old(self) && r@ == status(STATUS_INVALID_PARAMETER),
            },
    {
        match req {
            Some(a) => {
                self.remove_atom(a);
                reply_status(0)
            },
            None => reply_status(STATUS_INVALID_PARAMETER),
        }
    }
}

/// What is told of an atom: how often it was added at 8, and the whole length of its name at 16.
pub proof fn lemma_atom_told(count: u32, len: u32, part: Seq<u8>)
    ensures
        ({
            let r = block(head(0, part.len() as u32) + u32_bytes(count) + u32_bytes(0) + u32_bytes(len)) + part;
            u32_at(r, 0) == 0 && u32_at(r, 8) == count && u32_at(r, 16) == len && r.skip(64) == part
        }),
{
    let body = head(0, part.len() as u32) + u32_bytes(count) + u32_bytes(0) + u32_bytes(len);
    assert(body.subrange(0, 4) =~= u32_bytes(0));
    lemma_word_told(body, part, 0, 0);
    assert(body.subrange(8, 12) =~= u32_bytes(count));
    lemma_word_told(body, part, 8, count);
    assert(body.subrange(16, 20) =~= u32_bytes(len));
    lemma_word_told(body, part, 16, len);
}

/// An atom that is added once more counts one more, up to the largest count; a new one counts one, and has
/// the next number.
pub proof fn lemma_counts_of_atoms(before: Atoms, after: Atoms, name: Seq<u8>, r: u32)
    requires
        before.wf(),
        atom_added(before, after, name, r),
    ensures
        before.find(byte_units(name)) matches Some(a) ==> r == a && (before.atoms@[a].count < i32::MAX
            ==> after.atoms@[a].count == before.atoms@[a].count + 1) && after.next == before.next,
        before.find(byte_units(name)) is None ==> r == before.next && after.atoms@[r].count == 1 && after.next
            == before.next + 1 && after.atoms@[r].name@ == name,
        after.find(byte_units(name)) == Some(r),
{
}

} // verus!
