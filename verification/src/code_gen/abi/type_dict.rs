//! The type dictionary: the resolved types of the universe, found by name.

use crate::code_gen::abi::type_info::{TypeInfo, TypeInfoView};
use crate::code_gen::error::{GenError, GenErrorView};
use vstd::prelude::*;

verus! {

/// The names of the entries, in order.
pub open spec fn names_of(entries: Seq<TypeInfoView>) -> Seq<Seq<char>> {
    entries.map_values(|t: TypeInfoView| t.name())
}

/// No two entries share a name.
pub open spec fn distinct_names(entries: Seq<TypeInfoView>) -> bool {
    forall|i: int, j: int|
        0 <= i < j < entries.len() ==> (#[trigger] entries[i]).name() != (#[trigger] entries[j]).name()
}

/// Whether some entry has the name.
pub open spec fn has_name(entries: Seq<TypeInfoView>, name: Seq<char>) -> bool {
    exists|i: int| 0 <= i < entries.len() && (#[trigger] entries[i]).name() == name
}

/// The place of the first entry with the name.
pub open spec fn position_of(entries: Seq<TypeInfoView>, name: Seq<char>) -> Option<int>
    decreases entries.len(),
{
    if entries.len() == 0 {
        None
    } else {
        match position_of(entries.drop_last(), name) {
            Some(i) => Some(i),
            None => if entries.last().name() == name {
                Some(entries.len() - 1)
            } else {
                None
            },
        }
    }
}

/// The entry with the name.
pub open spec fn entry_named(entries: Seq<TypeInfoView>, name: Seq<char>) -> Option<TypeInfoView> {
    match position_of(entries, name) {
        Some(i) => Some(entries[i]),
        None => None,
    }
}

/// `position_of` finds the first entry with the name, and finds none only
/// where there is none.
pub proof fn lemma_position_of(entries: Seq<TypeInfoView>, name: Seq<char>)
    ensures
        match position_of(entries, name) {
            Some(i) => {
                &&& 0 <= i < entries.len()
                &&& entries[i].name() == name
                &&& forall|k: int| 0 <= k < i ==> (#[trigger] entries[k]).name() != name
            },
            None => forall|k: int| 0 <= k < entries.len() ==> (#[trigger] entries[k]).name() != name,
        },
        position_of(entries, name) is Some <==> has_name(entries, name),
    decreases entries.len(),
{
    if entries.len() > 0 {
        let front = entries.drop_last();
        lemma_position_of(front, name);
        assert(forall|k: int| 0 <= k < front.len() ==> front[k] == entries[k]);
        match position_of(front, name) {
            Some(i) => {
                assert(entries[i].name() == name);
            },
            None => {
                if entries.last().name() == name {
                    assert(entries[entries.len() - 1].name() == name);
                }
            },
        }
    }
}

/// The resolved types of the universe. No two of them share a name, and
/// they are kept in the order in which they were put in.
pub struct TypeDict {
    entries: Vec<TypeInfo>,
}

impl View for TypeDict {
    type V = Seq<TypeInfoView>;

    closed spec fn view(&self) -> Seq<TypeInfoView> {
        self.entries@.map_values(|t: TypeInfo| t@)
    }
}

impl TypeDict {
    #[verifier::type_invariant]
    pub open spec fn well_formed(&self) -> bool {
        distinct_names(self@)
    }

    /// An empty dictionary.
    pub fn new() -> (r: TypeDict)
        ensures
            r@ == Seq::<TypeInfoView>::empty(),
    {
        let r = TypeDict { entries: Vec::new() };
        assert(r@ =~= Seq::<TypeInfoView>::empty());
        r
    }

    /// The number of types.
    pub fn len(&self) -> (r: usize)
        ensures
            r == self@.len(),
            distinct_names(self@),
    {
        proof {
            use_type_invariant(self);
        }
        self.entries.len()
    }

    /// The type at a place of the insertion order.
    pub fn entry(&self, i: usize) -> (r: &TypeInfo)
        requires
            i < self@.len(),
        ensures
            r@ == self@[i as int],
    {
        &self.entries[i]
    }

    /// The place of the type with the name.
    pub fn index_of(&self, name: &str) -> (r: Option<usize>)
        ensures
            distinct_names(self@),
            match r {
                Some(i) => position_of(self@, name@) == Some(i as int) && i < self@.len(),
                None => position_of(self@, name@) is None,
            },
    {
        proof {
            use_type_invariant(self);
        }
        let wanted = name.to_owned();
        let mut i: usize = 0;
        while i < self.entries.len()
            invariant
                i <= self.entries.len(),
                wanted@ == name@,
                distinct_names(self@),
                self@.len() == self.entries.len(),
                forall|k: int| 0 <= k < i ==> (#[trigger] self@[k]).name() != name@,
            decreases self.entries.len() - i,
        {
            let candidate = self.entries[i].name().to_owned();
            if candidate == wanted {
                proof {
                    assert(self@[i as int].name() == name@);
                    lemma_position_of(self@, name@);
                }
                return Some(i);
            }
            i = i + 1;
        }
        proof {
            lemma_position_of(self@, name@);
        }
        None
    }

    /// Whether the dictionary holds a type with the name.
    pub fn contains_key(&self, name: &str) -> (r: bool)
        ensures
            r == has_name(self@, name@),
    {
        proof {
            lemma_position_of(self@, name@);
        }
        self.index_of(name).is_some()
    }

    /// The type with the name.
    pub fn get(&self, name: &str) -> (r: Option<&TypeInfo>)
        ensures
            match r {
                Some(t) => entry_named(self@, name@) == Some(t@),
                None => entry_named(self@, name@) is None,
            },
    {
        match self.index_of(name) {
            Some(i) => Some(&self.entries[i]),
            None => None,
        }
    }

    /// Puts a type in, unless one with its name is there already.
    pub fn insert(&mut self, type_info: TypeInfo) -> (r: Result<(), GenError>)
        ensures
            match r {
                Ok(_) => !has_name(old(self)@, type_info@.name()) && final(self)@ == old(self)@.push(
                    type_info@,
                ),
                Err(e) => has_name(old(self)@, type_info@.name()) && final(self)@ == old(self)@
                    && e@ == GenErrorView::DuplicateTypeName(type_info@.name()),
            },
    {
        if self.contains_key(type_info.name()) {
            return Err(GenError::DuplicateTypeName(type_info.name().to_owned()));
        }
        proof {
            use_type_invariant(&*self);
        }
        let ghost before = self@;
        let mut entries: Vec<TypeInfo> = Vec::new();
        core::mem::swap(&mut entries, &mut self.entries);
        entries.push(type_info);
        let ghost after = entries@.map_values(|t: TypeInfo| t@);
        assert(after =~= before.push(type_info@));
        assert(distinct_names(after)) by {
            assert forall|i: int, j: int| 0 <= i < j < after.len() implies (#[trigger] after[i]).name()
                != (#[trigger] after[j]).name() by {
                if j < before.len() {
                    assert(before[i].name() != before[j].name());
                } else {
                    assert(before[i].name() != type_info@.name());
                }
            }
        }
        self.entries = entries;
        Ok(())
    }
}

} // verus!
