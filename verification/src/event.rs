//! What the host reports to the menu, and what the menu answers.

use vstd::prelude::*;
use vstd::string::*;
use crate::menu::PasswordEntryType;

verus! {

/// What the host reports.
#[derive(Clone, Copy, Debug, PartialEq, Eq)]
#[allow(inconsistent_fields)]
pub enum Event {
    /// The user left the menu.
    Cancel,
    /// The user accepted the entry at `selected`.
    Accept { selected: usize },
    /// The user accepted the typed input, which is no entry of the list.
    CustomInput,
    /// The host's own completion key.
    Complete,
    /// The user asked to delete an entry.
    DeleteEntry,
    /// A custom key binding; number 0 asks for completion of the input, with the
    /// highlighted entry, if any, at `selected`.
    CustomCommand { number: u8, selected: Option<usize> },
}

/// What the host is to do next.
#[derive(Clone, Copy, Debug, PartialEq, Eq, Structural)]
pub enum Directive {
    /// Show the entry list again.
    Reload,
    /// Go back to the host's own first mode.
    NativeMode,
    /// End the session.
    Exit,
}

/// What is to happen outside the menu, once, before the directive is followed.
#[derive(Clone, Debug)]
pub enum Effect {
    Nothing,
    /// Start the password tool with a command, its flags and one argument.
    RunPass { command: String, flags: String, argument: String },
    /// Report that a password is to be filed by hand.
    ConfirmAdd { directory: String, file_name: String, entry_type: PasswordEntryType },
    /// Report that a password is to be replaced by hand.
    ConfirmChange { file_name: String, entry_type: PasswordEntryType },
    /// Print the text.
    Echo { text: String },
}

/// An effect over sequences of characters.
pub enum EffectView {
    Nothing,
    RunPass { command: Seq<char>, flags: Seq<char>, argument: Seq<char> },
    ConfirmAdd { directory: Seq<char>, file_name: Seq<char>, entry_type: PasswordEntryType },
    ConfirmChange { file_name: Seq<char>, entry_type: PasswordEntryType },
    Echo { text: Seq<char> },
}

impl View for Effect {
    type V = EffectView;

    open spec fn view(&self) -> EffectView {
        match *self {
            Effect::Nothing => EffectView::Nothing,
            Effect::RunPass { command, flags, argument } => EffectView::RunPass {
                command: command@,
                flags: flags@,
                argument: argument@,
            },
            Effect::ConfirmAdd { directory, file_name, entry_type } => EffectView::ConfirmAdd {
                directory: directory@,
                file_name: file_name@,
                entry_type,
            },
            Effect::ConfirmChange { file_name, entry_type } => EffectView::ConfirmChange {
                file_name: file_name@,
                entry_type,
            },
            Effect::Echo { text } => EffectView::Echo { text: text@ },
        }
    }
}

/// The answer to an event.
#[derive(Clone, Debug)]
pub struct Reaction {
    pub directive: Directive,
    pub effect: Effect,
}

/// The line that an effect has printed, if any.
pub open spec fn printed_text(effect: EffectView) -> Option<Seq<char>> {
    match effect {
        EffectView::ConfirmAdd { directory, file_name, entry_type } => Some(
            "PASS_ADD: [PASSWD_DIR: "@ + directory + ", PASSWD_FILE_NAME: "@ + file_name
                + ", PASSWD_ENTRY_TYPE: UserInput]"@,
        ),
        EffectView::ConfirmChange { file_name, entry_type } => Some(
            "PASS_CHNG: [PASSWD_FILE_NAME: "@ + file_name + ", PASSWD_ENTRY_TYPE: UserInput]"@,
        ),
        EffectView::Echo { text } => Some(text),
        _ => None,
    }
}

impl Effect {
    /// The line to print for this effect, if it prints one.
    pub fn printed(&self) -> (r: Option<String>)
        ensures
            match r {
                Some(line) => printed_text(self@) == Some(line@),
                None => printed_text(self@) is None,
            },
    {
        match self {
            Effect::ConfirmAdd { directory, file_name, entry_type } => {
                let mut line = String::from_str("PASS_ADD: [PASSWD_DIR: ");
                line.append(directory.as_str());
                line.append(", PASSWD_FILE_NAME: ");
                line.append(file_name.as_str());
                line.append(", PASSWD_ENTRY_TYPE: UserInput]");
                Some(line)
            },
            Effect::ConfirmChange { file_name, entry_type } => {
                let mut line = String::from_str("PASS_CHNG: [PASSWD_FILE_NAME: ");
                line.append(file_name.as_str());
                line.append(", PASSWD_ENTRY_TYPE: UserInput]");
                Some(line)
            },
            Effect::Echo { text } => Some(String::from_str(text.as_str())),
            _ => None,
        }
    }
}

} // verus!
