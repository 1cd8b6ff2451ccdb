//! The subscriber that tracked reads are registered with.

use crate::node::AnySubscriber;
use vstd::prelude::*;

verus! {

/// The ambient "who is reading" slot of one runtime.
///
/// Set for the extent of a memo's or an effect's run, empty otherwise.
pub struct Observer {
    pub current: Option<AnySubscriber>,
}

impl Observer {
    /// An observer slot with nobody in it.
    pub fn new() -> (observer: Self)
        ensures
            observer.current is None,
    {
        Observer { current: None }
    }

    /// The subscriber that is tracking reads, if any.
    pub fn get(&self) -> (current: Option<AnySubscriber>)
        ensures
            current == self.current,
    {
        self.current
    }

    /// Whether `observer` is the subscriber that is tracking reads.
    pub fn is(&self, observer: &AnySubscriber) -> (same: bool)
        ensures
            same == (self.current == Some(*observer)),
    {
        match self.current {
            Some(current) => current.0 == observer.0,
            None => false,
        }
    }

    /// Empties the slot and hands out what was in it.
    pub fn take(&mut self) -> (previous: Option<AnySubscriber>)
        ensures
            previous == old(self).current,
            final(self).current is None,
    {
        let previous = self.current;
        self.current = None;
        previous
    }

    /// Puts `observer` into the slot.
    pub fn set(&mut self, observer: Option<AnySubscriber>)
        ensures
            final(self).current == observer,
    {
        self.current = observer;
    }
}

} // verus!
