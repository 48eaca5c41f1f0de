//! The single-use reply slot carried inside each actor envelope.
//!
//! A slot models the reply channel bound to one client dispatch: it starts
//! empty, an actor may store at most one value in it, and the dispatcher
//! consumes that value at most once. `send` requires the slot to be empty,
//! so over a slot's whole lifetime at most one value is ever written.

use vstd::prelude::*;

verus! {

/// A reply channel of capacity one, bound to a single request.
pub struct ReplySlot<T> {
    value: Option<T>,
}

impl<T> View for ReplySlot<T> {
    type V = Option<T>;

    closed spec fn view(&self) -> Option<T> {
        self.value
    }
}

impl<T> ReplySlot<T> {
    /// A fresh slot with nothing written to it.
    pub fn empty() -> (s: Self)
        ensures
            s@ is None,
    {
        ReplySlot { value: None }
    }

    /// Store the one reply. Writing demands an empty slot, so no second
    /// value can ever be written over the first.
    pub fn send(&mut self, v: T)
        requires
            old(self)@ is None,
        ensures
            final(self)@ == Some(v),
    {
        self.value = Some(v);
    }

    /// Consume the reply, if one was written, leaving the slot empty.
    pub fn take(&mut self) -> (r: Option<T>)
        ensures
            r == old(self)@,
            final(self)@ is None,
    {
        self.value.take()
    }

    /// Whether a reply has been written and not yet consumed.
    pub fn is_filled(&self) -> (r: bool)
        ensures
            r == (self@ is Some),
    {
        self.value.is_some()
    }
}

} // verus!
