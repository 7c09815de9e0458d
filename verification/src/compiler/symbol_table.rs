//! The registry of declared names and of literal constants.

use vstd::prelude::*;

use crate::ast::{Identifier, IdentifierKind};
use crate::ast::value::{Value, ValueView};
use crate::compiler::error::{CompilerError, CompilerResult};
use crate::compiler::model::{distinct_names, slot_of, Fault, SymbolView};
use crate::text::same_text;

verus! {

/// The names declared in one compilation unit, each with its kind, and
/// the constants met so far.
///
/// There is one flat scope. A name's slot is the number of names declared
/// before it; a constant's index is the number of constants added before
/// it. Equal constants are not merged. The table itself sets no limit to
/// their number.
#[derive(Debug)]
pub struct SymbolTable {
    names: Vec<String>,
    kinds: Vec<IdentifierKind>,
    values: Vec<Value>,
}

/// The contents of a vector of constants.
pub open spec fn values_view(values: Seq<Value>) -> Seq<ValueView> {
    Seq::new(values.len(), |i: int| values[i]@)
}

/// The contents of a vector of names.
pub open spec fn names_view(names: Seq<String>) -> Seq<Seq<char>> {
    Seq::new(names.len(), |i: int| names[i]@)
}

impl Default for SymbolTable {
    /// An empty table.
    fn default() -> (r: Self)
        ensures
            r.wf(),
            r.symbols() == Seq::<SymbolView>::empty(),
            r.values() == Seq::<ValueView>::empty(),
    {
        SymbolTable::new()
    }
}

impl SymbolTable {
    /// The declared names in slot order.
    pub closed spec fn symbols(&self) -> Seq<SymbolView> {
        Seq::new(
            self.names@.len(),
            |i: int| SymbolView { name: self.names@[i]@, kind: self.kinds@[i] },
        )
    }

    /// The constant pool.
    pub closed spec fn values(&self) -> Seq<ValueView> {
        values_view(self.values@)
    }

    /// No name is declared twice.
    pub closed spec fn wf(&self) -> bool {
        &&& self.names@.len() == self.kinds@.len()
        &&& distinct_names(self.symbols())
    }

    pub proof fn lemma_wf(&self)
        requires
            self.wf(),
        ensures
            distinct_names(self.symbols()),
    {
    }

    /// An empty table.
    pub fn new() -> (r: Self)
        ensures
            r.wf(),
            r.symbols() == Seq::<SymbolView>::empty(),
            r.values() == Seq::<ValueView>::empty(),
    {
        let r = SymbolTable { names: Vec::new(), kinds: Vec::new(), values: Vec::new() };
        assert(r.symbols() =~= Seq::<SymbolView>::empty());
        assert(r.values() =~= Seq::<ValueView>::empty());
        r
    }

    /// Declares `identifier` and returns its slot, which is the number of
    /// names declared before.
    ///
    /// Fails with `Redefinition`, changing nothing, when the name is
    /// declared already.
    pub fn register(&mut self, identifier: Identifier) -> (r: CompilerResult<usize>)
        requires
            old(self).wf(),
        ensures
            final(self).wf(),
            final(self).values() == old(self).values(),
            match r {
                Ok(slot) => slot_of(old(self).symbols(), identifier.ident@) is None && slot
                    == old(self).symbols().len() && final(self).symbols() == old(
                    self,
                ).symbols().push(SymbolView { name: identifier.ident@, kind: identifier.kind }),
                Err(error) => slot_of(old(self).symbols(), identifier.ident@) is Some && error@
                    == Fault::Redefinition(identifier.ident@) && final(self).symbols() == old(
                    self,
                ).symbols(),
            },
    {
        if self.contains(identifier.ident.as_str()) {
            return Err(CompilerError::Redefinition(identifier.ident));
        }
        let idx: usize = self.next_identifier();
        let ghost before = self.symbols();
        let ghost name = identifier.ident@;
        self.names.push(identifier.ident);
        self.kinds.push(identifier.kind);
        proof {
            assert(self.symbols() =~= before.push(
                SymbolView { name: identifier.ident@, kind: identifier.kind },
            ));
            assert forall|i: int, j: int| 0 <= i < j < self.symbols().len() implies (
            #[trigger] self.symbols()[i]).name != (#[trigger] self.symbols()[j]).name by {
                if j < before.len() {
                    assert(before[i].name != before[j].name);
                } else {
                    assert(before[i].name != name);
                }
            }
        }
        Ok(idx)
    }

    /// The slot that the next name will get: the number of declared names.
    pub fn next_identifier(&self) -> (r: usize)
        requires
            self.wf(),
        ensures
            r == self.symbols().len(),
    {
        self.names.len()
    }

    /// The index that the next constant will get: the number of constants
    /// in the pool.
    pub fn next_constant(&self) -> (r: usize)
        requires
            self.wf(),
        ensures
            r == self.values().len(),
    {
        self.values.len()
    }

    /// The kind and slot of a declared name.
    pub fn get(&self, ident: &str) -> (r: Option<(IdentifierKind, usize)>)
        requires
            self.wf(),
        ensures
            match r {
                Some((kind, slot)) => slot_of(self.symbols(), ident@) == Some(slot as int)
                    && self.symbols()[slot as int].kind == kind,
                None => slot_of(self.symbols(), ident@) is None,
            },
    {
        let mut i: usize = 0;
        while i < self.names.len()
            invariant
                self.wf(),
                0 <= i <= self.names@.len(),
                forall|k: int| 0 <= k < i ==> (#[trigger] self.symbols()[k]).name != ident@,
            decreases self.names@.len() - i,
        {
            if same_text(self.names[i].as_str(), ident) {
                proof {
                    assert(self.symbols()[i as int].name == ident@);
                    let chosen = slot_of(self.symbols(), ident@)->0;
                    assert(self.symbols()[chosen].name == ident@);
                    if chosen < i {
                        assert(self.symbols()[chosen].name != self.symbols()[i as int].name);
                    }
                    if chosen > i {
                        assert(self.symbols()[i as int].name != self.symbols()[chosen].name);
                    }
                }
                return Some((self.kinds[i], i));
            }
            i += 1;
        }
        None
    }

    /// Whether the name is declared.
    pub fn contains(&self, identifier: &str) -> (r: bool)
        requires
            self.wf(),
        ensures
            r == (slot_of(self.symbols(), identifier@) is Some),
    {
        self.get(identifier).is_some()
    }

    /// Adds a constant to the pool and returns its index, which is the
    /// number of constants added before.
    pub fn register_value(&mut self, value: Value) -> (r: usize)
        requires
            old(self).wf(),
        ensures
            final(self).wf(),
            final(self).symbols() == old(self).symbols(),
            r == old(self).values().len(),
            final(self).values() == old(self).values().push(value@),
    {
        let index: usize = self.next_constant();
        let ghost before = self.values();
        self.values.push(value);
        assert(self.values() =~= before.push(value@));
        index
    }

    /// The name that holds the slot `index`.
    pub fn get_symbol(&self, index: usize) -> (r: Option<&String>)
        requires
            self.wf(),
        ensures
            match r {
                Some(name) => index < self.symbols().len() && name@ == self.symbols()[index as int].name,
                None => index >= self.symbols().len(),
            },
    {
        if index < self.names.len() {
            Some(&self.names[index])
        } else {
            None
        }
    }

    /// The constant at `index` of the pool.
    pub fn get_value(&self, index: u16) -> (r: Option<&Value>)
        requires
            self.wf(),
        ensures
            match r {
                Some(value) => index < self.values().len() && value@ == self.values()[index as int],
                None => index >= self.values().len(),
            },
    {
        if (index as usize) < self.values.len() {
            Some(&self.values[index as usize])
        } else {
            None
        }
    }

    /// Hands out the constant pool and the declared names in slot order,
    /// and leaves the table empty.
    pub fn finish(&mut self) -> (r: (Vec<Value>, Vec<String>))
        requires
            old(self).wf(),
        ensures
            final(self).wf(),
            final(self).symbols() == Seq::<SymbolView>::empty(),
            final(self).values() == Seq::<ValueView>::empty(),
            values_view(r.0@) == old(self).values(),
            r.1@.len() == old(self).symbols().len(),
            forall|slot: int|
                0 <= slot < r.1@.len() ==> (#[trigger] r.1@[slot])@ == old(self).symbols()[slot].name,
    {
        let mut values: Vec<Value> = Vec::new();
        let mut names: Vec<String> = Vec::new();
        core::mem::swap(&mut self.values, &mut values);
        core::mem::swap(&mut self.names, &mut names);
        self.kinds = Vec::new();
        assert(self.symbols() =~= Seq::<SymbolView>::empty());
        assert(self.values() =~= Seq::<ValueView>::empty());
        (values, names)
    }
}

} // verus!
