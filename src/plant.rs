use vstd::prelude::*;

verus! {

/// A vegetable with a public name and an identifier that only this module sets.
pub struct Vegetable {
    pub name: String,
    id: i32,
}

impl Vegetable {
    /// The identifier given to every vegetable made by `new`.
    pub open spec fn initial_id() -> i32 {
        1
    }

    pub closed spec fn spec_name(&self) -> Seq<char> {
        self.name@
    }

    pub closed spec fn spec_id(&self) -> i32 {
        self.id
    }

    /// A vegetable named `name`, with the initial identifier.
    pub fn new(name: &str) -> (v: Vegetable)
        ensures
            v.spec_name() == name@,
            v.spec_id() == Self::initial_id(),
    {
        Vegetable { name: name.to_owned(), id: 1 }
    }

    /// The identifier, readable but not writable from outside this module.
    pub fn id(&self) -> (r: i32)
        ensures
            r == self.spec_id(),
    {
        self.id
    }
}

} // verus!
