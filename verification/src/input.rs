//! Keyboard events and the handlers that receive them.

use vstd::prelude::*;

verus! {

/// A key went down or came up.
#[derive(Debug, Clone, Copy, PartialEq, Eq, Structural)]
pub enum KeyEvent {
    Press,
    Release,
}

/// Receives the keyboard events that a listener reads.
pub trait KeyboardHandler: 'static + Send {
    fn on_key_event(&self, event: KeyEvent);
}

} // verus!
