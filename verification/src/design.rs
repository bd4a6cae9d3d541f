//! The smallest actor and component of the engine's design notes: an actor
//! with one counter, and a text component whose builder methods keep it as
//! it is.
use vstd::prelude::*;

verus! {

/// The simplest actor: one counter field.
pub struct MyActor {
    pub foo: usize,
}

impl MyActor {
    pub fn new() -> (r: MyActor)
        ensures
            r.foo == 12,
    {
        MyActor { foo: 12 }
    }
}

/// A component that shows a text and a number.
pub struct MyComponent {
    pub text: String,
    pub number: usize,
}

impl MyComponent {
    /// A component with an empty text and the number zero.
    pub fn new() -> (r: MyComponent)
        ensures
            r.text@ == Seq::<char>::empty(),
            r.number == 0,
    {
        MyComponent { text: String::new(), number: 0 }
    }

    /// Builder step for the text; it keeps the component as it is.
    pub fn text(self, str: &str) -> (r: MyComponent)
        ensures
            r == self,
    {
        self
    }

    /// Builder step for the number; it keeps the component as it is.
    pub fn number(self, num: usize) -> (r: MyComponent)
        ensures
            r == self,
    {
        self
    }
}

} // verus!
