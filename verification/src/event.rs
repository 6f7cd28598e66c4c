//! The event taxonomy offered to extensions.

use vstd::prelude::*;

verus! {

/// An event that a handler may cancel.
pub trait Event {
    /// Whether the event is currently marked as cancelled.
    spec fn cancelled(&self) -> bool;

    /// Marks the event as cancelled, or clears the mark.
    fn set_cancelled(&mut self, cancelled: bool)
        ensures
            final(self).cancelled() == cancelled,
    ;

    /// Reports the mark.
    fn is_cancelled(&self) -> (r: bool)
        ensures
            r == self.cancelled(),
    ;
}

/// Hooks of an extension's life cycle.
pub trait Plugin {
    /// Called once when the extension is switched on.
    fn on_enable();

    /// Called once when the extension is switched off.
    fn on_disable();
}

/// The kinds of event that can be dispatched.
pub enum Events {
    /// A user interacted with the world: `false` for a right click,
    /// `true` for a left click.
    UserInteract(bool),
}

/// A user clicked on something.
pub struct UserInteract {
    pub is_cancelled: bool,
    pub hand: bool,
}

impl UserInteract {
    /// The hand that clicked: `true` for the left one.
    pub fn get_hand(&self) -> (hand: bool)
        ensures
            hand == self.hand,
    {
        self.hand
    }
}

impl Event for UserInteract {
    open spec fn cancelled(&self) -> bool {
        self.is_cancelled
    }

    fn set_cancelled(&mut self, cancelled: bool)
        ensures
            final(self).hand == old(self).hand,
    {
        self.is_cancelled = cancelled;
    }

    fn is_cancelled(&self) -> (r: bool) {
        self.is_cancelled
    }
}

} // verus!
