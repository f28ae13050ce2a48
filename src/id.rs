use std::marker::PhantomData;
use vstd::prelude::*;

verus! {

/// An identifier of one element of the family `A`.
///
/// The family is a marker type: identifiers of different families are
/// different types, so they cannot be mixed up.
#[derive(Debug, PartialEq, Eq, PartialOrd, Ord, Hash)]
pub struct Id<A> {
    index: usize,
    family: PhantomData<A>,
}

impl<A> Clone for Id<A> {
    fn clone(&self) -> (r: Id<A>)
        ensures
            r@ == self@,
    {
        Id { index: self.index, family: PhantomData }
    }
}

impl<A> Copy for Id<A> {

}

impl<A> View for Id<A> {
    type V = nat;

    closed spec fn view(&self) -> nat {
        self.index as nat
    }
}

/// The slots named by a sequence of identifiers, in order.
pub open spec fn ids<A>(v: Seq<Id<A>>) -> Seq<nat> {
    v.map_values(|x: Id<A>| x@)
}

impl<A> Id<A> {
    /// The identifier at slot `index` of its family.
    pub fn first(index: usize) -> (r: Id<A>)
        ensures
            r@ == index,
    {
        Id { index, family: PhantomData }
    }

    /// The slot this identifier names.
    pub fn index(&self) -> (r: usize)
        ensures
            r == self@,
    {
        self.index
    }
}

} // verus!
