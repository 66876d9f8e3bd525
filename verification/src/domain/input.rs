//! Mouse input and copy mode.

use vstd::prelude::*;

verus! {

/// A mouse button.
#[derive(Clone, Copy, Debug, PartialEq, Eq, Structural)]
pub enum MouseButton {
    Left,
    Middle,
    Right,
}

/// The direction of a wheel step.
#[derive(Clone, Copy, Debug, PartialEq, Eq, Structural)]
pub enum MouseWheelDirection {
    Up,
    Down,
    Left,
    Right,
}

/// Which buttons are down after an event.
#[derive(Clone, Copy, Debug, PartialEq, Eq, Structural)]
pub struct MouseButtons {
    pub left: bool,
    pub middle: bool,
    pub right: bool,
}

impl Default for MouseButtons {
    fn default() -> (r: Self)
        ensures
            !r.left && !r.middle && !r.right,
    {
        MouseButtons { left: false, middle: false, right: false }
    }
}

impl MouseButtons {
    /// Whether a button is down.
    pub open spec fn holds_spec(self, button: MouseButton) -> bool {
        match button {
            MouseButton::Left => self.left,
            MouseButton::Middle => self.middle,
            MouseButton::Right => self.right,
        }
    }

    /// Whether a button is down.
    pub fn holds(self, button: MouseButton) -> (r: bool)
        ensures
            r == self.holds_spec(button),
    {
        match button {
            MouseButton::Left => self.left,
            MouseButton::Middle => self.middle,
            MouseButton::Right => self.right,
        }
    }
}

/// The modifier keys held during an event.
#[derive(Clone, Copy, Debug, PartialEq, Eq, Structural)]
pub struct MouseModifiers {
    pub shift: bool,
    pub alt: bool,
    pub control: bool,
}

impl Default for MouseModifiers {
    fn default() -> (r: Self)
        ensures
            !r.shift && !r.alt && !r.control,
    {
        MouseModifiers { shift: false, alt: false, control: false }
    }
}

/// What the mouse did.
#[allow(inconsistent_fields)]
#[derive(Clone, Copy, Debug, PartialEq, Eq, Structural)]
pub enum MouseEventKind {
    Press { button: MouseButton },
    Release { button: MouseButton },
    Motion { button: Option<MouseButton> },
    Wheel { direction: MouseWheelDirection },
}

/// A mouse event at a cell, with the buttons that are down after it.
#[derive(Clone, Copy, Debug, PartialEq, Eq, Structural)]
pub struct MouseEvent {
    pub kind: MouseEventKind,
    pub column: u16,
    pub row: u16,
    pub modifiers: MouseModifiers,
    pub buttons: MouseButtons,
}

impl MouseEvent {
    /// The buttons that are down agree with what the mouse did: a pressed or
    /// dragging button is down, a released one is not.
    pub open spec fn coherent(self) -> bool {
        match self.kind {
            MouseEventKind::Press { button } => self.buttons.holds_spec(button),
            MouseEventKind::Release { button } => !self.buttons.holds_spec(button),
            MouseEventKind::Motion { button: Some(button) } => self.buttons.holds_spec(button),
            MouseEventKind::Motion { button: None } => true,
            MouseEventKind::Wheel { .. } => true,
        }
    }

    /// Rejects an event whose buttons disagree with what the mouse did.
    pub fn validate(&self) -> (r: Result<(), &'static str>)
        ensures
            r is Ok <==> self.coherent(),
            r matches Err(message) ==> message@ == match self.kind {
                MouseEventKind::Press { .. } => "a pressed button must be down"@,
                MouseEventKind::Release { .. } => "a released button must be up"@,
                _ => "a dragging button must be down"@,
            },
    {
        match self.kind {
            MouseEventKind::Press { button } => if self.buttons.holds(button) {
                Ok(())
            } else {
                Err("a pressed button must be down")
            },
            MouseEventKind::Release { button } => if self.buttons.holds(button) {
                Err("a released button must be up")
            } else {
                Ok(())
            },
            MouseEventKind::Motion { button: Some(button) } => if self.buttons.holds(button) {
                Ok(())
            } else {
                Err("a dragging button must be down")
            },
            MouseEventKind::Motion { button: None } => Ok(()),
            MouseEventKind::Wheel { .. } => Ok(()),
        }
    }

    /// Whether this event is a wheel step.
    pub fn is_wheel(&self) -> (r: bool)
        ensures
            r == (self.kind is Wheel),
    {
        match self.kind {
            MouseEventKind::Wheel { .. } => true,
            _ => false,
        }
    }
}

/// Where the copy-mode cursor goes.
#[derive(Clone, Copy, Debug, PartialEq, Eq, Structural)]
pub enum CopyModeMovement {
    Left,
    Right,
    Up,
    Down,
    PageUp,
    PageDown,
}

/// The direction of a search.
#[derive(Clone, Copy, Debug, PartialEq, Eq, Structural)]
pub enum SearchDirection {
    Forward,
    Backward,
}

/// A copy-mode command.
#[derive(Clone, Debug, PartialEq, Eq)]
pub enum CopyModeAction {
    Begin,
    BeginSelection { column: u16, row: u16 },
    SetSelectionEnd { column: u16, row: u16 },
    Move { movement: CopyModeMovement },
    ToggleSelection,
    Search { query: String },
    RepeatSearch { direction: SearchDirection },
    Copy,
    FinalizeCopy { copy_id: u128 },
    Cancel,
}

impl CopyModeAction {
    /// Whether this command enters copy mode.
    pub fn begins(&self) -> (r: bool)
        ensures
            r == (self is Begin),
    {
        match self {
            CopyModeAction::Begin => true,
            _ => false,
        }
    }
}

/// Why a copy-mode command failed.
#[derive(Clone, Copy, Debug, PartialEq, Eq, Structural)]
pub enum CopyModeError {
    AlreadyActive,
    NotActive,
    CursorLost,
    SearchSpaceTooLarge { actual: u64, maximum: u64 },
}

/// Why a terminal refused a command.
#[derive(Clone, Debug, PartialEq, Eq)]
pub enum CommandError {
    Busy,
    Stopped,
    Emulator(String),
    CopyMode(CopyModeError),
}

/// A button that is pressed or drags is down in the event, and one that is released is up.
/// Nothing else is asked of the buttons: not of the others, and not of any when the mouse only
/// moves or its wheel turns.
pub proof fn law_buttons_agree_with_the_mouse(event: MouseEvent)
    ensures
        event.kind == (MouseEventKind::Press { button: MouseButton::Left }) ==> event.coherent()
            == event.buttons.left,
        event.kind == (MouseEventKind::Press { button: MouseButton::Middle }) ==> event.coherent()
            == event.buttons.middle,
        event.kind == (MouseEventKind::Press { button: MouseButton::Right }) ==> event.coherent()
            == event.buttons.right,
        event.kind == (MouseEventKind::Release { button: MouseButton::Left }) ==> event.coherent()
            == !event.buttons.left,
        event.kind == (MouseEventKind::Release { button: MouseButton::Middle }) ==> event.coherent()
            == !event.buttons.middle,
        event.kind == (MouseEventKind::Release { button: MouseButton::Right }) ==> event.coherent()
            == !event.buttons.right,
        event.kind == (MouseEventKind::Motion { button: Some(MouseButton::Left) })
            ==> event.coherent() == event.buttons.left,
        event.kind == (MouseEventKind::Motion { button: Some(MouseButton::Middle) })
            ==> event.coherent() == event.buttons.middle,
        event.kind == (MouseEventKind::Motion { button: Some(MouseButton::Right) })
            ==> event.coherent() == event.buttons.right,
        event.kind == (MouseEventKind::Motion { button: None }) ==> event.coherent(),
        event.kind is Wheel ==> event.coherent(),
{
}

} // verus!
