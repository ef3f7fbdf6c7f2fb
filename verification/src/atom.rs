//! Atoms: symbolic names, ordered as their UTF-8 bytes are.

use vstd::prelude::*;
use vstd::string::*;
use crate::order::{bytes_equal, bytes_order, compare_bytes, Order};

verus! {

/// A symbolic identifier. Two atoms are the same atom when they have the
/// same name.
#[derive(Debug, Eq)]
pub struct Atom {
    name: Vec<u8>,
}

impl View for Atom {
    type V = Seq<u8>;

    /// The bytes of the name.
    closed spec fn view(&self) -> Seq<u8> {
        self.name@
    }
}

impl PartialEq for Atom {
    /// Whether both are the same atom.
    fn eq(&self, other: &Atom) -> (equal: bool) {
        bytes_equal(self.name.as_slice(), other.name.as_slice())
    }
}

impl vstd::std_specs::cmp::PartialEqSpecImpl for Atom {
    open spec fn obeys_eq_spec() -> bool {
        true
    }

    open spec fn eq_spec(&self, other: &Atom) -> bool {
        self@ == other@
    }
}

impl Atom {
    /// The atom whose name is `name`.
    pub fn from_str(name: &str) -> (atom: Atom)
        ensures
            atom@ == name.spec_bytes(),
    {
        Atom { name: name.as_bytes_vec() }
    }

    /// The atom whose name has the bytes `name`.
    pub fn from_bytes(name: Vec<u8>) -> (atom: Atom)
        ensures
            atom@ == name@,
    {
        Atom { name }
    }

    /// The bytes of the name.
    pub fn name(&self) -> (name: &Vec<u8>)
        ensures
            name@ == self@,
    {
        &self.name
    }

    /// A second handle on the same atom.
    pub fn duplicate(&self) -> (atom: Atom)
        ensures
            atom@ == self@,
    {
        let mut name: Vec<u8> = Vec::new();
        let mut i: usize = 0;
        while i < self.name.len()
            invariant
                i <= self.name.len(),
                name@ == self.name@.subrange(0, i as int),
            decreases self.name.len() - i,
        {
            name.push(self.name[i]);
            assert(name@ == self.name@.subrange(0, i + 1));
            i += 1;
        }
        assert(name@ == self.name@);
        Atom { name }
    }

    /// Whether both are the same atom.
    pub fn same(&self, other: &Atom) -> (equal: bool)
        ensures
            equal == (self@ == other@),
    {
        bytes_equal(self.name.as_slice(), other.name.as_slice())
    }

    /// The order of two atoms: that of their names.
    pub fn compare(&self, other: &Atom) -> (order: Order)
        ensures
            order == bytes_order(self@, other@),
    {
        compare_bytes(self.name.as_slice(), other.name.as_slice())
    }
}

/// The table of atoms: every atom that was interned, at the place of its
/// number. Atoms are added and never taken away.
#[derive(Debug)]
pub struct AtomTable {
    names: Vec<Atom>,
}

impl View for AtomTable {
    type V = Seq<Seq<u8>>;

    /// The names of the atoms, each at the place of its number.
    closed spec fn view(&self) -> Seq<Seq<u8>> {
        Seq::new(self.names@.len(), |i: int| self.names@[i]@)
    }
}

/// Whether no name occurs twice.
pub open spec fn distinct_names(names: Seq<Seq<u8>>) -> bool {
    forall|i: int, j: int| 0 <= i < j < names.len() ==> names[i] != names[j]
}

impl AtomTable {
    /// Whether no atom is in the table twice, and every atom has a number
    /// of 32 bits.
    pub open spec fn wf(&self) -> bool {
        distinct_names(self@) && self@.len() <= 0x1_0000_0000
    }

    /// The empty table.
    pub fn new() -> (table: AtomTable)
        ensures
            table.wf(),
            table@.len() == 0,
    {
        AtomTable { names: Vec::new() }
    }

    /// The number of atoms in the table.
    pub fn len(&self) -> (len: usize)
        ensures
            len == self@.len(),
    {
        self.names.len()
    }

    /// The number of the atom `name`, if it is in the table.
    pub fn lookup(&self, name: &Atom) -> (id: Option<u32>)
        requires
            self.wf(),
        ensures
            id matches Some(i) ==> i < self@.len() && self@[i as int] == name@,
            id is None ==> forall|i: int| 0 <= i < self@.len() ==> self@[i] != name@,
    {
        let mut i: usize = 0;
        while i < self.names.len()
            invariant
                i <= self.names.len(),
                self.wf(),
                forall|j: int| 0 <= j < i ==> self@[j] != name@,
            decreases self.names.len() - i,
        {
            if self.names[i].same(name) {
                assert(self@[i as int] == name@);
                return Some(i as u32);
            }
            assert(self@[i as int] != name@);
            i += 1;
        }
        None
    }

    /// The number of the atom `name`, which is added to the table if it is
    /// not in it. No atom that was in the table changes its number. Fails
    /// only where the table is full and the atom is not in it.
    pub fn intern(&mut self, name: &Atom) -> (id: Option<u32>)
        requires
            old(self).wf(),
        ensures
            final(self).wf(),
            final(self)@.len() >= old(self)@.len(),
            final(self)@.subrange(0, old(self)@.len() as int) == old(self)@,
            id matches Some(i) ==> i < final(self)@.len() && final(self)@[i as int] == name@,
            id matches Some(i) ==> final(self)@.len() == (if i < old(self)@.len() {
                old(self)@.len()
            } else {
                old(self)@.len() + 1
            }),
            id is None ==> final(self)@ == old(self)@ && old(self)@.len() == 0x1_0000_0000,
    {
        if let Some(id) = self.lookup(name) {
            assert(self@.subrange(0, self@.len() as int) =~= self@);
            return Some(id);
        }
        if self.names.len() as u64 >= 0x1_0000_0000 {
            assert(self@.subrange(0, self@.len() as int) =~= self@);
            return None;
        }
        let id = self.names.len() as u32;
        self.names.push(name.duplicate());
        proof {
            assert(final(self)@.subrange(0, old(self)@.len() as int) =~= old(self)@);
            assert forall|i: int, j: int| 0 <= i < j < final(self)@.len() implies final(self)@[i]
                != final(self)@[j] by {
                assert(final(self)@[i] == old(self)@[i]);
                if j < old(self)@.len() {
                    assert(final(self)@[j] == old(self)@[j]);
                }
            }
        }
        Some(id)
    }

    /// The atom with the number `id`, if there is one.
    pub fn name_of(&self, id: u32) -> (name: Option<Atom>)
        ensures
            name is Some <==> id < self@.len(),
            name matches Some(n) ==> n@ == self@[id as int],
    {
        if (id as usize) < self.names.len() {
            Some(self.names[id as usize].duplicate())
        } else {
            None
        }
    }
}

} // verus!
