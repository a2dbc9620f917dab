//! The symbol table: which instruction each label stands in front of.

use vstd::hash_map::StringHashMap;
use vstd::prelude::*;

verus! {

/// A map from label names to instruction indices.
///
/// The index of a label is the number of instructions that come before it
/// in the program, so it is the position of the instruction that follows
/// the label. The table is filled in a first pass over the source and only
/// read after that. It holds finitely many labels at any time.
pub struct SymbolTable {
    entries: StringHashMap<usize>,
}

impl View for SymbolTable {
    type V = Map<Seq<char>, nat>;

    closed spec fn view(&self) -> Map<Seq<char>, nat> {
        self.entries@.map_values(|index: usize| index as nat)
    }
}

impl SymbolTable {
    /// What holds of every table at any time: its labels are finitely many.
    #[verifier::type_invariant]
    pub closed spec fn well_formed(&self) -> bool {
        self.entries@.dom().finite()
    }

    /// A well-formed table holds finitely many labels.
    pub proof fn lemma_finite(&self)
        requires
            self.well_formed(),
        ensures
            self@.dom().finite(),
    {
        assert(self@.dom() =~= self.entries@.dom());
    }

    /// A table without labels.
    pub fn new() -> (table: Self)
        ensures
            table@ == Map::<Seq<char>, nat>::empty(),
            table@.dom().finite(),
    {
        let table = SymbolTable { entries: StringHashMap::new() };
        proof {
            assert(table@ =~= Map::<Seq<char>, nat>::empty());
            table.lemma_finite();
        }
        table
    }

    /// Whether `label` is defined.
    pub fn contains_key(&self, label: &str) -> (found: bool)
        ensures
            found == self@.contains_key(label@),
            self@.dom().finite(),
    {
        proof {
            use_type_invariant(self);
            self.lemma_finite();
        }
        self.entries.contains_key(label)
    }

    /// The index that `label` stands for, if it is defined.
    pub fn get(&self, label: &str) -> (index: Option<usize>)
        ensures
            (match index {
                Some(i) => self@.contains_key(label@) && self@[label@] == i as nat,
                None => !self@.contains_key(label@),
            }),
            self@.dom().finite(),
    {
        proof {
            use_type_invariant(self);
            self.lemma_finite();
        }
        match self.entries.get(label) {
            Some(index) => Some(*index),
            None => None,
        }
    }

    /// Binds `label` to `index`, in place of what it stood for before. The
    /// count of labels grows by one where `label` was not defined, and
    /// stays where it was.
    pub fn insert(&mut self, label: String, index: usize)
        ensures
            final(self)@ == old(self)@.insert(label@, index as nat),
            old(self)@.dom().finite(),
            final(self)@.dom().finite(),
            final(self)@.len() == old(self)@.len() + (if old(self)@.contains_key(label@) {
                0int
            } else {
                1int
            }),
    {
        proof {
            use_type_invariant(&*self);
            self.lemma_finite();
        }
        let mut entries: StringHashMap<usize> = StringHashMap::new();
        std::mem::swap(&mut self.entries, &mut entries);
        entries.insert(label, index);
        std::mem::swap(&mut self.entries, &mut entries);
        proof {
            assert(self@ =~= old(self)@.insert(label@, index as nat));
            self.lemma_finite();
        }
    }

    /// The number of labels defined.
    pub fn len(&self) -> (count: usize)
        ensures
            count == self@.len(),
            self@.dom().finite(),
    {
        proof {
            use_type_invariant(self);
            self.lemma_finite();
            assert(self@.dom() =~= self.entries@.dom());
        }
        self.entries.len()
    }
}

} // verus!
