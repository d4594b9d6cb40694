//! Keyboard input: from key codes to characters and window shortcuts.
use vstd::prelude::*;

use crate::bits::lemma_low_five_bits;

verus! {

#[derive(Clone, Copy, PartialEq, Eq, Structural, Debug)]
pub enum KeyAction {
    Press(u8),
    Release(u8),
}

/// What an action byte and a key code say.
pub open spec fn key_action(action_code: u8, key_code: u8) -> Option<KeyAction> {
    if action_code == 1 {
        Some(KeyAction::Press(key_code))
    } else if action_code == 2 {
        Some(KeyAction::Release(key_code))
    } else {
        None
    }
}

impl KeyAction {
    pub fn from_raw(action_code: u8, key_code: u8) -> (r: Option<Self>)
        ensures
            r == key_action(action_code, key_code),
    {
        match action_code {
            1 => Some(KeyAction::Press(key_code)),
            2 => Some(KeyAction::Release(key_code)),
            _ => None,
        }
    }
}

/// Alt-key combinations that the console manager intercepts.
#[derive(Clone, Copy, PartialEq, Eq, Structural, Debug)]
pub enum AltAction {
    /// Alt+q: close the focused window.
    CloseWindow,
    /// Alt+Return: open a new terminal window.
    NewTerminal,
    /// Alt+Tab: rotate focus to the next window.
    CycleFocus,
    /// Alt+Space: toggle the focused window between tiled and floating.
    ToggleFloat,
}

/// The keyboard: the codes of the keys with a meaning of their own, and the
/// plain and shifted character of each printing key below code 0x60.
pub struct KeyLayout {
    pub shift: u8,
    pub control: u8,
    pub alt: u8,
    pub q: u8,
    pub enter: u8,
    pub tab: u8,
    pub space: u8,
    pub characters: Vec<(u8, u8)>,
}

impl KeyLayout {
    pub open spec fn wf(&self) -> bool {
        self.characters@.len() == 0x60
    }
}

#[derive(Clone, Copy, PartialEq, Eq, Structural, Debug)]
pub struct KeyState {
    pub ctrl: bool,
    pub shift: bool,
    pub alt: bool,
}

impl KeyState {
    /// The character of a key, if it gives one: with Ctrl held, the low five
    /// bits of a code below 0x60; otherwise what the layout says, zero above it.
    pub open spec fn character(&self, code: u8, layout: &KeyLayout) -> Option<u8> {
        if self.ctrl {
            if code < 0x60 { Some((code % 0x20) as u8) } else { None }
        } else if code < 0x60 {
            Some(if self.shift { layout.characters@[code as int].1 } else { layout.characters@[code as int].0 })
        } else {
            Some(0)
        }
    }

    /// The modifiers after a key went down or up. The first of the shift,
    /// control and alt keys that has the code is the one that changes.
    pub open spec fn after(&self, action: KeyAction, layout: &KeyLayout) -> KeyState {
        let (code, down) = match action {
            KeyAction::Press(c) => (c, true),
            KeyAction::Release(c) => (c, false),
        };
        if code == layout.shift {
            KeyState { shift: down, ..*self }
        } else if code == layout.control {
            KeyState { ctrl: down, ..*self }
        } else if code == layout.alt {
            KeyState { alt: down, ..*self }
        } else {
            *self
        }
    }

    pub open spec fn is_modifier(code: u8, layout: &KeyLayout) -> bool {
        code == layout.shift || code == layout.control || code == layout.alt
    }

    /// The character that an action types, if any.
    pub open spec fn typed(&self, action: KeyAction, layout: &KeyLayout) -> Option<u8> {
        match action {
            KeyAction::Press(code) if !Self::is_modifier(code, layout) => self.character(code, layout),
            _ => None,
        }
    }

    /// The window shortcut that pressing a key is.
    pub open spec fn shortcut(&self, code: u8, layout: &KeyLayout) -> Option<AltAction> {
        if !self.alt {
            None
        } else if code == layout.q {
            Some(AltAction::CloseWindow)
        } else if code == layout.enter {
            Some(AltAction::NewTerminal)
        } else if code == layout.tab {
            Some(AltAction::CycleFocus)
        } else if code == layout.space {
            Some(AltAction::ToggleFloat)
        } else {
            None
        }
    }

    pub fn new() -> (r: KeyState)
        ensures
            r == (KeyState { ctrl: false, shift: false, alt: false }),
    {
        KeyState { ctrl: false, shift: false, alt: false }
    }

    /// Follow a key action. A typed character goes to the front of `buffer`.
    pub fn process_key_action(
        &mut self, action: KeyAction, buffer: &mut [u8], layout: &KeyLayout,
    ) -> (r: Option<usize>)
        requires
            layout.wf(),
            old(buffer)@.len() > 0,
        ensures
            *final(self) == old(self).after(action, layout),
            r == (match old(self).typed(action, layout) { Some(_) => Some(1usize), None => None }),
            final(buffer)@ == (match old(self).typed(action, layout) {
                Some(c) => old(buffer)@.update(0, c),
                None => old(buffer)@,
            }),
    {
        match action {
            KeyAction::Press(code) => {
                if code == layout.shift {
                    self.shift = true;
                    None
                } else if code == layout.control {
                    self.ctrl = true;
                    None
                } else if code == layout.alt {
                    self.alt = true;
                    None
                } else {
                    let len: usize = self.key_code_to_ascii(code, buffer, layout);
                    if len > 0 { Some(len) } else { None }
                }
            }
            KeyAction::Release(code) => {
                if code == layout.shift {
                    self.shift = false;
                } else if code == layout.control {
                    self.ctrl = false;
                } else if code == layout.alt {
                    self.alt = false;
                }
                None
            }
        }
    }

    /// The shortcut that a key is, while the alt key is held.
    pub fn check_alt_action(&self, code: u8, layout: &KeyLayout) -> (r: Option<AltAction>)
        ensures
            r == self.shortcut(code, layout),
    {
        if !self.alt {
            return None;
        }
        if code == layout.q {
            Some(AltAction::CloseWindow)
        } else if code == layout.enter {
            Some(AltAction::NewTerminal)
        } else if code == layout.tab {
            Some(AltAction::CycleFocus)
        } else if code == layout.space {
            Some(AltAction::ToggleFloat)
        } else {
            None
        }
    }

    /// Put the character of a key at the front of `buffer`; returns how many
    /// bytes were put there.
    pub fn key_code_to_ascii(&self, code: u8, buffer: &mut [u8], layout: &KeyLayout) -> (r: usize)
        requires
            layout.wf(),
            old(buffer)@.len() > 0,
        ensures
            r == (if self.character(code, layout).is_some() { 1int } else { 0 }),
            final(buffer)@ == (match self.character(code, layout) {
                Some(c) => old(buffer)@.update(0, c),
                None => old(buffer)@,
            }),
    {
        let index: usize = code as usize;
        let (normal, shifted): (u8, u8) = if index < 0x60 { layout.characters[index] } else { (0, 0) };
        if self.ctrl {
            if index < 0x60 {
                proof { lemma_low_five_bits(code); }
                buffer[0] = code & 0x1f;
                return 1;
            } else {
                return 0;
            }
        }
        buffer[0] = if self.shift { shifted } else { normal };
        1
    }
}

/// Pressing and releasing a modifier leaves the modifiers as they were before,
/// if it was not held, and a modifier never types a character.
pub proof fn release_undoes_press(state: KeyState, code: u8, layout: &KeyLayout)
    requires
        KeyState::is_modifier(code, layout),
        !(code == layout.shift && state.shift),
        !(code == layout.control && state.ctrl),
        !(code == layout.alt && state.alt),
    ensures
        state.after(KeyAction::Press(code), layout).after(KeyAction::Release(code), layout) == state,
        state.typed(KeyAction::Press(code), layout).is_none(),
        state.typed(KeyAction::Release(code), layout).is_none(),
{
}

} // verus!
