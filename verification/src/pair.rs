//! The rename pair: one intended filesystem rename, from an original name
//! to a new name.

use vstd::prelude::*;

verus! {

/// Mathematical model of a rename pair: the two names as character sequences.
pub ghost struct SpecPair {
    pub from: Seq<char>,
    pub to: Seq<char>,
}

impl SpecPair {
    /// A no-op pair renames a name to itself; the engine never touches it.
    pub open spec fn is_noop(self) -> bool {
        self.from == self.to
    }
}

/// One intended rename of `from` to `to`, both relative to the working
/// directory. A pair is a plain value: no identity beyond its two fields.
#[derive(Debug)]
pub struct RenamePair {
    pub from: String,
    pub to: String,
}

impl View for RenamePair {
    type V = SpecPair;

    open spec fn view(&self) -> SpecPair {
        SpecPair { from: self.from@, to: self.to@ }
    }
}

impl Clone for RenamePair {
    fn clone(&self) -> (res: Self)
        ensures
            res == *self,
    {
        RenamePair { from: self.from.clone(), to: self.to.clone() }
    }
}

impl RenamePair {
    /// Whether applying this pair would leave the name unchanged.
    pub fn is_noop(&self) -> (r: bool)
        ensures
            r == self@.is_noop(),
    {
        self.from == self.to
    }
}

/// The models of a list of pairs, in the same order.
pub open spec fn pairs_view(ps: Seq<RenamePair>) -> Seq<SpecPair> {
    ps.map_values(|p: RenamePair| p@)
}

/// Turns a directory listing into identity pairs (`name -> name`), one per
/// entry, in the order given.
pub fn file_list_to_renamepairs(file_names: Vec<String>) -> (r: Vec<RenamePair>)
    ensures
        r@.len() == file_names@.len(),
        forall|i: int|
            0 <= i < r@.len() ==> #[trigger] r@[i]@.from == file_names@[i]@ && r@[i]@.to
                == file_names@[i]@,
{
    let mut r: Vec<RenamePair> = Vec::new();
    let mut i: usize = 0;
    while i < file_names.len()
        invariant
            i <= file_names@.len(),
            r@.len() == i,
            forall|j: int|
                0 <= j < i ==> #[trigger] r@[j]@.from == file_names@[j]@ && r@[j]@.to
                    == file_names@[j]@,
        decreases file_names@.len() - i,
    {
        let name = file_names[i].clone();
        let copy = file_names[i].clone();
        r.push(RenamePair { from: name, to: copy });
        i = i + 1;
    }
    r
}

} // verus!
