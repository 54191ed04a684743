//! Tables of names: the symbol table, which gives every name its position,
//! and the map from names to numbers that serves as function table and as
//! activation frame.

use vstd::prelude::*;

verus! {

/// In a sequence without duplicates an element is found where it stands.
pub proof fn lemma_index_of_unique<A>(s: Seq<A>, i: int)
    requires
        s.no_duplicates(),
        0 <= i < s.len(),
    ensures
        s.contains(s[i]),
        s.index_of(s[i]) == i,
{
}

/// A new element after the last keeps a sequence free of duplicates.
pub proof fn lemma_push_new_no_duplicates<A>(s: Seq<A>, a: A)
    requires
        s.no_duplicates(),
        !s.contains(a),
    ensures
        s.push(a).no_duplicates(),
        forall|x: A| s.push(a).contains(x) <==> (s.contains(x) || x == a),
        forall|x: A| s.contains(x) ==> s.push(a).index_of(x) == s.index_of(x),
        s.push(a).index_of(a) == s.len(),
{
    let t = s.push(a);
    assert forall|x: A| t.contains(x) <==> (s.contains(x) || x == a) by {
        if s.contains(x) {
            assert(t[s.index_of(x)] == x);
        }
        if x == a {
            assert(t[s.len() as int] == a);
        }
    }
}

/// An ordered table of distinct names. The position of a name is the address
/// of the symbol: positions start at zero and have no gaps, and a name that
/// comes later stands behind all that came before.
#[derive(Debug, PartialEq, Eq)]
pub struct SymbolTable {
    names: Vec<String>,
}

impl View for SymbolTable {
    type V = Seq<Seq<char>>;

    /// The names, each at its address.
    closed spec fn view(&self) -> Seq<Seq<char>> {
        self.names.deep_view()
    }
}

impl DeepView for SymbolTable {
    type V = Seq<Seq<char>>;

    open spec fn deep_view(&self) -> Seq<Seq<char>> {
        self@
    }
}

/// The address of `name` in `names`, if it is there.
pub open spec fn address_of(names: Seq<Seq<char>>, name: Seq<char>) -> Option<nat> {
    if names.contains(name) {
        Some(names.index_of(name) as nat)
    } else {
        None
    }
}

impl SymbolTable {
    /// No name stands in the table twice.
    pub open spec fn wf(&self) -> bool {
        self@.no_duplicates()
    }

    /// The table without names.
    pub fn new() -> (table: SymbolTable)
        ensures
            table@ == Seq::<Seq<char>>::empty(),
            table.wf(),
    {
        let table = SymbolTable { names: Vec::new() };
        table
    }

    /// The number of names.
    pub fn len(&self) -> (n: usize)
        ensures
            n == self@.len(),
    {
        self.names.len()
    }

    /// Whether the table holds no name.
    pub fn is_empty(&self) -> (empty: bool)
        ensures
            empty == (self@.len() == 0),
    {
        self.names.len() == 0
    }

    /// The address of `name`, or `None` where the table does not hold it.
    pub fn address(&self, name: &str) -> (address: Option<usize>)
        requires
            self.wf(),
        ensures
            address_of(self@, name@) == match address {
                Some(a) => Some(a as nat),
                None => None,
            },
            address matches Some(a) ==> a < self@.len() && self@[a as int] == name@,
    {
        let mut i: usize = 0;
        while i < self.names.len()
            invariant
                i <= self.names.len(),
                self.wf(),
                forall|j: int| 0 <= j < i ==> self@[j] != name@,
            decreases self.names.len() - i,
        {
            if *self.names[i].as_str() == *name {
                proof {
                    lemma_index_of_unique(self@, i as int);
                }
                return Some(i);
            }
            i += 1;
        }
        None
    }

    /// Whether the table holds `name`.
    pub fn contains(&self, name: &str) -> (found: bool)
        requires
            self.wf(),
        ensures
            found == self@.contains(name@),
    {
        self.address(name).is_some()
    }

    /// The name at `address`, or `None` where no name has that address.
    pub fn name(&self, address: usize) -> (name: Option<&String>)
        ensures
            match name {
                Some(name) => address < self@.len() && name@ == self@[address as int],
                None => address >= self@.len(),
            },
    {
        if address < self.names.len() {
            Some(&self.names[address])
        } else {
            None
        }
    }

    /// Gives `name` the next address, unless the table holds the name
    /// already: then nothing changes. Returns the address of a name that is
    /// new, and `None` for one that is not.
    pub fn declare(&mut self, name: String) -> (address: Option<usize>)
        requires
            old(self).wf(),
        ensures
            final(self).wf(),
            match address {
                Some(a) => {
                    &&& !old(self)@.contains(name@)
                    &&& a == old(self)@.len()
                    &&& final(self)@ == old(self)@.push(name@)
                },
                None => old(self)@.contains(name@) && final(self)@ == old(self)@,
            },
    {
        if self.contains(name.as_str()) {
            None
        } else {
            let address = self.names.len();
            self.append(name);
            Some(address)
        }
    }

    /// Gives `name`, which the table does not hold yet, the next address.
    pub(crate) fn append(&mut self, name: String)
        requires
            old(self).wf(),
            !old(self)@.contains(name@),
        ensures
            final(self)@ == old(self)@.push(name@),
            final(self).wf(),
    {
        self.names.push(name);
        assert(self@ =~= old(self)@.push(name@));
    }

    /// Removes every name.
    pub fn clear(&mut self)
        ensures
            final(self)@ == Seq::<Seq<char>>::empty(),
            final(self).wf(),
    {
        self.names.clear();
    }

    /// The names in the order of their addresses.
    pub fn names(&self) -> (names: Vec<String>)
        ensures
            names.deep_view() == self@,
    {
        let mut names: Vec<String> = Vec::new();
        let mut i: usize = 0;
        while i < self.names.len()
            invariant
                i <= self.names.len(),
                names.deep_view() == self@.take(i as int),
            decreases self.names.len() - i,
        {
            let name = self.names[i].clone();
            let ghost before = names.deep_view();
            names.push(name);
            assert(names.deep_view() =~= before.push(name@));
            i += 1;
        }
        names
    }
}

/// A finite map from names to numbers. It serves as the function table,
/// from a function's name to the line of its header, and as an activation
/// frame, from a local's name to its address. The names are kept in the order
/// in which they were first given a number.
#[derive(Debug, PartialEq, Eq)]
pub struct NameMap {
    keys: SymbolTable,
    values: Vec<usize>,
}

/// From a function's name to the index of the line that holds its header.
pub type FunctionTable = NameMap;

/// From the name of a local to its address, for one call in progress.
pub type ActivationFrame = NameMap;

impl View for NameMap {
    type V = Map<Seq<char>, nat>;

    closed spec fn view(&self) -> Map<Seq<char>, nat> {
        Map::new(
            |k: Seq<char>| self.keys@.contains(k),
            |k: Seq<char>| self.values@[self.keys@.index_of(k)] as nat,
        )
    }
}

impl DeepView for NameMap {
    type V = Map<Seq<char>, nat>;

    open spec fn deep_view(&self) -> Map<Seq<char>, nat> {
        self@
    }
}

impl NameMap {
    /// Every name has one number.
    pub closed spec fn wf(&self) -> bool {
        &&& self.keys.wf()
        &&& self.keys@.len() == self.values@.len()
    }

    /// The names of the map, in the order in which they came into it.
    pub closed spec fn names(&self) -> Seq<Seq<char>> {
        self.keys@
    }

    /// The names of a well-formed map are its domain, each once.
    pub proof fn theorem_names(&self)
        requires
            self.wf(),
        ensures
            self.names().no_duplicates(),
            self.names().len() == self@.len(),
            forall|name: Seq<char>| self.names().contains(name) <==> self@.contains_key(name),
    {
        self.lemma_domain();
    }

    /// What the names of a well-formed map are to the map: its domain, which
    /// is finite.
    proof fn lemma_domain(&self)
        requires
            self.wf(),
        ensures
            self@.dom() == self.keys@.to_set(),
            self@.dom().finite(),
            self@.len() == self.keys@.len(),
    {
        broadcast use vstd::seq_lib::seq_to_set_is_finite;

        self.keys@.unique_seq_to_set();
    }

    /// The map without names.
    pub fn new() -> (map: NameMap)
        ensures
            map@ == Map::<Seq<char>, nat>::empty(),
            map.names() == Seq::<Seq<char>>::empty(),
            map.wf(),
    {
        let map = NameMap { keys: SymbolTable::new(), values: Vec::new() };
        map
    }

    /// The number of names.
    pub fn len(&self) -> (n: usize)
        requires
            self.wf(),
        ensures
            n == self@.len(),
    {
        proof {
            self.lemma_domain();
        }
        self.keys.len()
    }

    /// The number that `name` has, or `None` where it has none.
    pub fn get(&self, name: &str) -> (value: Option<usize>)
        requires
            self.wf(),
        ensures
            match value {
                Some(v) => self@.contains_key(name@) && self@[name@] == v,
                None => !self@.contains_key(name@),
            },
    {
        match self.keys.address(name) {
            Some(i) => Some(self.values[i]),
            None => None,
        }
    }

    /// Whether `name` has a number.
    pub fn contains_key(&self, name: &str) -> (found: bool)
        requires
            self.wf(),
        ensures
            found == self@.contains_key(name@),
    {
        self.keys.contains(name)
    }

    /// Gives `name` the number `value`, in place of the one it had, if any.
    pub fn insert(&mut self, name: String, value: usize)
        requires
            old(self).wf(),
        ensures
            final(self)@ == old(self)@.insert(name@, value as nat),
            final(self).names() == if old(self)@.contains_key(name@) {
                old(self).names()
            } else {
                old(self).names().push(name@)
            },
            final(self).wf(),
    {
        match self.keys.address(name.as_str()) {
            Some(i) => {
                self.values.set(i, value);
            },
            None => {
                proof {
                    lemma_push_new_no_duplicates(self.keys@, name@);
                }
                self.keys.append(name);
                self.values.push(value);
            },
        }
    }

    /// The names with their numbers, in the order in which the names came.
    pub fn entries(&self) -> (entries: Vec<(String, usize)>)
        requires
            self.wf(),
        ensures
            entries.len() == self.names().len(),
            forall|i: int|
                0 <= i < entries.len() ==> (#[trigger] entries[i]).0@ == self.names()[i]
                    && self@[self.names()[i]] == entries[i].1,
    {
        let mut entries: Vec<(String, usize)> = Vec::new();
        let mut i: usize = 0;
        while i < self.keys.len()
            invariant
                i <= self.keys@.len(),
                self.wf(),
                entries.len() == i,
                forall|j: int| 0 <= j < i ==> (#[trigger] entries[j]).0@ == self.keys@[j],
                forall|j: int| 0 <= j < i ==> (#[trigger] entries[j]).1 == self.values@[j],
            decreases self.keys@.len() - i,
        {
            let name = self.keys.names[i].clone();
            entries.push((name, self.values[i]));
            i += 1;
        }
        entries
    }
}

} // verus!
