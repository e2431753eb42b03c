//! References to actors.

use vstd::prelude::*;

verus! {

/// A reference to an actor, without the type of its messages.
#[derive(Debug, PartialEq, Eq)]
pub struct UntypedActorRef {
    path: String,
}

impl View for UntypedActorRef {
    type V = Seq<char>;

    closed spec fn view(&self) -> Seq<char> {
        self.path@
    }
}

impl Clone for UntypedActorRef {
    fn clone(&self) -> (r: Self)
        ensures
            r@ == self@,
    {
        UntypedActorRef { path: self.path.clone() }
    }
}

impl UntypedActorRef {
    /// A reference to the actor at `path`.
    pub fn new(path: &str) -> (r: Self)
        ensures
            r@ == path@,
    {
        UntypedActorRef { path: path.to_owned() }
    }

    /// The path of the actor.
    pub fn path(&self) -> (r: &str)
        ensures
            r@ == self@,
    {
        self.path.as_str()
    }
}

} // verus!
