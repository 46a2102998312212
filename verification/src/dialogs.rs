//! Modal dialog state: the create-session input, the kill confirmation, and
//! the stateless popups. Drawing them is the host's business; the state and
//! its edits are verified here.

use vstd::prelude::*;

use crate::util::chars_to_string;
use crate::util::str_chars;

verus! {

/// The new-session name dialog: a single line of input.
pub struct CreateDialog {
    pub input: Vec<char>,
}

impl CreateDialog {
    /// An empty input line.
    pub fn new() -> (d: Self)
        ensures
            d.input@.len() == 0,
    {
        CreateDialog { input: Vec::new() }
    }

    /// Clear the input line.
    pub fn clear(&mut self)
        ensures
            final(self).input@.len() == 0,
    {
        self.input.clear();
    }

    /// Append one typed character.
    pub fn push(&mut self, c: char)
        ensures
            final(self).input@ == old(self).input@.push(c),
    {
        self.input.push(c);
    }

    /// Remove the last character, if any.
    pub fn pop(&mut self) -> (r: Option<char>)
        ensures
            old(self).input@.len() == 0 ==> r is None && final(self).input@ == old(
                self,
            ).input@,
            old(self).input@.len() > 0 ==> r == Some(old(self).input@.last())
                && final(self).input@ == old(self).input@.drop_last(),
    {
        self.input.pop()
    }

    /// Take the typed name, leaving the dialog empty.
    pub fn take_input(&mut self) -> (r: String)
        ensures
            r@ == old(self).input@,
            final(self).input@.len() == 0,
    {
        let s = chars_to_string(&self.input);
        self.input.clear();
        s
    }
}

/// The kill confirmation dialog: remembers which session it asks about.
pub struct KillConfirmDialog {
    pub session_name: String,
}

impl KillConfirmDialog {
    /// A dialog asking about no session yet.
    pub fn new() -> (d: Self)
        ensures
            d.session_name@.len() == 0,
    {
        KillConfirmDialog { session_name: String::new() }
    }

    /// Point the dialog at a session.
    pub fn set_session_name(&mut self, name: &str)
        ensures
            final(self).session_name@ == name@,
    {
        let chars = str_chars(name);
        self.session_name = chars_to_string(&chars);
    }
}

/// The help overlay; it carries no state.
pub struct HelpPopup;

impl HelpPopup {
    pub fn new() -> (d: Self) {
        HelpPopup
    }
}

/// The quit confirmation dialog; it carries no state.
pub struct QuitConfirmDialog;

impl QuitConfirmDialog {
    pub fn new() -> (d: Self) {
        QuitConfirmDialog
    }
}

/// The command menu popup; it carries no state.
pub struct CommandMenu;

impl CommandMenu {
    pub fn new() -> (d: Self) {
        CommandMenu
    }
}

/// The main framed view; it carries no state.
pub struct MainView;

impl MainView {
    pub fn new() -> (d: Self) {
        MainView
    }
}

} // verus!
