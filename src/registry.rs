//! The per-rule metavariable registry: one stable identifier per name.
use vstd::prelude::*;
use crate::text::{bytes_equal, copy_range};

verus! {

/// The identifier of a registered metavariable: its position in the registry.
#[derive(Clone, Copy, Debug, PartialEq, Eq, Structural)]
pub struct VariableRef {
    pub index: usize,
}

/// Mutable state of one rule's compilation: the metavariable registry.
pub struct CompilationContext {
    names: Vec<Vec<u8>>,
}

/// No name occurs twice.
pub open spec fn names_distinct(names: Seq<Seq<u8>>) -> bool {
    forall|i: int, j: int| 0 <= i < names.len() && 0 <= j < names.len() && i != j
        ==> names[i] != names[j]
}

/// The registry after registering `name`: unchanged if the name is known,
/// else extended by it.
pub open spec fn register_spec(names: Seq<Seq<u8>>, name: Seq<u8>) -> Seq<Seq<u8>> {
    if names.contains(name) {
        names
    } else {
        names.push(name)
    }
}

impl View for CompilationContext {
    type V = Seq<Seq<u8>>;

    closed spec fn view(&self) -> Seq<Seq<u8>> {
        self.names@.map_values(|n: Vec<u8>| n@)
    }
}

impl CompilationContext {
    pub open spec fn wf(&self) -> bool {
        names_distinct(self@)
    }

    /// A fresh context with no registered names.
    pub fn new() -> (r: CompilationContext)
        ensures
            r@ == Seq::<Seq<u8>>::empty(),
            r.wf(),
    {
        let r = CompilationContext { names: Vec::new() };
        assert(r@ =~= Seq::<Seq<u8>>::empty());
        r
    }

    /// The number of registered names.
    pub fn len(&self) -> (r: usize)
        ensures
            r == self@.len(),
    {
        self.names.len()
    }

    /// The position of `name` in the registry, if it is registered.
    pub fn lookup(&self, name: &[u8]) -> (r: Option<usize>)
        requires
            self.wf(),
        ensures
            match r {
                Some(i) => i < self@.len() && self@[i as int] == name@,
                None => !self@.contains(name@),
            },
    {
        let mut i: usize = 0;
        while i < self.names.len()
            invariant
                i <= self.names@.len(),
                self@.len() == self.names@.len(),
                forall|j: int| 0 <= j < i ==> self@[j] != name@,
            decreases self.names.len() - i,
        {
            if bytes_equal(self.names[i].as_slice(), name) {
                return Some(i);
            }
            i = i + 1;
        }
        None
    }

    /// Registers `name`, creating its identifier on first occurrence and
    /// returning the existing one on repeats.
    pub fn register_variable(&mut self, name: &[u8]) -> (r: VariableRef)
        requires
            old(self).wf(),
        ensures
            final(self).wf(),
            final(self)@ == register_spec(old(self)@, name@),
            r.index < final(self)@.len(),
            final(self)@[r.index as int] == name@,
    {
        match self.lookup(name) {
            Some(i) => VariableRef { index: i },
            None => {
                let i = self.names.len();
                let ghost before = self@;
                let owned = copy_range(name, 0, name.len());
                assert(name@.subrange(0, name@.len() as int) =~= name@);
                assert(owned@ =~= name@);
                self.names.push(owned);
                assert(self@ =~= before.push(name@));
                VariableRef { index: i }
            },
        }
    }
}

} // verus!
