//! The symbol table of one scope.

use vstd::prelude::*;
use vstd::hash_map::StringHashMap;
use crate::base::value::Value;

verus! {

/// The bindings of one scope. A name is bound at most once; a finalized
/// table is one that will receive no further bindings.
pub struct SymbolTable {
    entries: StringHashMap<Value>,
    finalized: bool,
}

impl SymbolTable {
    /// The bindings, from name to value.
    pub closed spec fn entries(&self) -> Map<Seq<char>, Value> {
        self.entries@
    }

    /// Whether the table has been finalized.
    pub closed spec fn is_finalized(&self) -> bool {
        self.finalized
    }

    pub fn new() -> (table: SymbolTable)
        ensures
            table.entries() == Map::<Seq<char>, Value>::empty(),
            !table.is_finalized(),
    {
        SymbolTable { entries: StringHashMap::new(), finalized: false }
    }

    pub fn get(&self, name: &str) -> (found: Option<&Value>)
        ensures
            match found {
                Some(value) => self.entries().contains_key(name@) && *value == self.entries()[name@],
                None => !self.entries().contains_key(name@),
            },
    {
        self.entries.get(name)
    }

    /// Binds `name` to `value`. A name that is already bound keeps its
    /// binding, and the rejected value is handed back.
    pub fn insert(&mut self, name: &str, value: Value) -> (outcome: Result<(), Value>)
        ensures
            final(self).is_finalized() == old(self).is_finalized(),
            old(self).entries().contains_key(name@) ==> outcome == Err::<(), Value>(value)
                && final(self).entries() == old(self).entries(),
            !old(self).entries().contains_key(name@) ==> outcome is Ok && final(self).entries()
                == old(self).entries().insert(name@, value),
    {
        if self.entries.contains_key(name) {
            return Err(value);
        }
        self.entries.insert(name.to_owned(), value);
        Ok(())
    }

    pub fn finalized(&self) -> (finalized: bool)
        ensures
            finalized == self.is_finalized(),
    {
        self.finalized
    }

    pub fn finalize(&mut self)
        ensures
            final(self).is_finalized(),
            final(self).entries() == old(self).entries(),
    {
        self.finalized = true
    }
}

} // verus!
