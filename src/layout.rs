//! The layout library: named structures holding boundaries, references and text.
use vstd::prelude::*;

use crate::geometry::Point;

verus! {

/// One element of a structure.
#[derive(Debug)]
pub enum Element {
    /// A closed polygon on a layer, given by its vertices.
    Boundary { layer: i16, points: Vec<Point> },
    /// An instance of the named structure, moved by `offset`.
    StructRef { name: String, offset: Point },
    /// A text label; it has no geometry.
    Text,
    /// An element kind that flattening does not handle.
    Other,
}

/// A named structure: its elements in stored order.
#[derive(Debug)]
pub struct Structure {
    pub name: String,
    pub elements: Vec<Element>,
}

/// A library of structures, with the length of one database unit given in
/// nanometres.
#[derive(Debug)]
pub struct Library {
    pub structures: Vec<Structure>,
    pub db_unit_nm: u64,
}

/// The index of the first structure of `s`, from `i` on, whose name is `name`.
pub open spec fn first_named(s: Seq<Structure>, name: Seq<char>, i: int) -> Option<int>
    decreases s.len() - i,
{
    if i < 0 || i >= s.len() {
        None
    } else if s[i].name@ == name {
        Some(i)
    } else {
        first_named(s, name, i + 1)
    }
}

pub proof fn lemma_first_named_bounds(s: Seq<Structure>, name: Seq<char>, i: int)
    ensures
        first_named(s, name, i) matches Some(j) ==> i <= j < s.len() && s[j].name@ == name,
    decreases s.len() - i,
{
    if 0 <= i < s.len() && s[i].name@ != name {
        lemma_first_named_bounds(s, name, i + 1);
    }
}

impl Library {
    /// The index of the first structure named `name`, if there is one.
    pub fn find(&self, name: &String) -> (r: Option<usize>)
        ensures
            r matches Some(j) ==> first_named(self.structures@, name@, 0) == Some(j as int),
            r is None ==> first_named(self.structures@, name@, 0) is None,
    {
        let mut i: usize = 0;
        while i < self.structures.len()
            invariant
                i <= self.structures.len(),
                first_named(self.structures@, name@, 0) == first_named(
                    self.structures@,
                    name@,
                    i as int,
                ),
            decreases self.structures.len() - i,
        {
            if self.structures[i].name == *name {
                return Some(i);
            }
            i += 1;
        }
        None
    }
}

} // verus!
