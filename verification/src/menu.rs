//! The positions of the menu, the fixed entries, and the hint shown at each position.

use vstd::prelude::*;
use vstd::string::*;
use crate::text::views;

verus! {

/// The steps of filing a new password.
#[derive(Clone, Copy, Debug, PartialEq, Eq, Structural)]
pub enum AddPass {
    ChooseDir,
    ChooseFileName,
    ChooseEntryType,
}

/// The steps of replacing a password.
#[derive(Clone, Copy, Debug, PartialEq, Eq, Structural)]
pub enum ChangePass {
    ChooseFile,
    ChooseNewPassEntryType,
}

/// Where in the menu the user stands.
#[derive(Clone, Copy, Debug, PartialEq, Eq, Structural)]
pub enum Menu {
    Initial,
    CopyPass,
    AddPass(AddPass),
    ChangePass(ChangePass),
}

/// How a password comes into the store where it is not generated.
#[derive(Clone, Copy, Debug, PartialEq, Eq, Structural)]
pub enum PasswordEntryType {
    UserInput,
}

/// The entry that leads back to the initial menu.
pub open spec fn back_operator() -> Seq<char> {
    ".."@
}

pub open spec fn copy_label() -> Seq<char> {
    "Copy password"@
}

pub open spec fn add_label() -> Seq<char> {
    "Add new password"@
}

pub open spec fn change_label() -> Seq<char> {
    "Change password"@
}

pub open spec fn quit_label() -> Seq<char> {
    "Quit"@
}

pub open spec fn input_label() -> Seq<char> {
    "Input"@
}

pub open spec fn generate_label() -> Seq<char> {
    "Generate"@
}

/// The entries of the initial menu.
pub open spec fn initial_menu() -> Seq<Seq<char>> {
    seq![copy_label(), add_label(), change_label(), quit_label()]
}

/// The entries from which the way of entering a password is chosen.
pub open spec fn entry_type_menu() -> Seq<Seq<char>> {
    seq![input_label(), generate_label()]
}

/// The positions whose list begins with the back entry.
pub open spec fn has_back(menu: Menu) -> bool {
    match menu {
        Menu::Initial => false,
        Menu::AddPass(AddPass::ChooseFileName) => false,
        Menu::AddPass(AddPass::ChooseEntryType) => false,
        Menu::ChangePass(ChangePass::ChooseNewPassEntryType) => false,
        _ => true,
    }
}

/// The hint shown at each position; none at the initial menu.
pub open spec fn message_text(menu: Menu) -> Seq<char> {
    match menu {
        Menu::Initial => Seq::empty(),
        Menu::CopyPass => "Password file selection, choose the password you wish to copy."@,
        Menu::AddPass(AddPass::ChooseDir) => "Directory selection, choose one of the existing directories, or type a new custom one."@,
        Menu::AddPass(AddPass::ChooseFileName) => "File name input, type the file name you wish to save the password to. It could be the url of the site the password belongs to, or just the name, for example archlinux.org, or just simply archlinux."@,
        Menu::AddPass(AddPass::ChooseEntryType) => "Input method selection, choose if you wish to have a password simply generated for you, or if you wish to add an already existing one."@,
        Menu::ChangePass(ChangePass::ChooseFile) => "Password changing file selection, type the file name of the password you wish to change."@,
        Menu::ChangePass(ChangePass::ChooseNewPassEntryType) => "Input method selection, choose if you wish to have the new password simply generated for you, or if you wish to change to your own existing one."@,
    }
}

/// Builds the entries of the initial menu.
pub fn initial_entries() -> (v: Vec<String>)
    ensures
        views(v@) == initial_menu(),
{
    let mut v: Vec<String> = Vec::new();
    v.push(String::from_str("Copy password"));
    v.push(String::from_str("Add new password"));
    v.push(String::from_str("Change password"));
    v.push(String::from_str("Quit"));
    assert(views(v@) =~= initial_menu());
    v
}

/// Builds the entries from which the way of entering a password is chosen.
pub fn entry_type_entries() -> (v: Vec<String>)
    ensures
        views(v@) == entry_type_menu(),
{
    let mut v: Vec<String> = Vec::new();
    v.push(String::from_str("Input"));
    v.push(String::from_str("Generate"));
    assert(views(v@) =~= entry_type_menu());
    v
}

/// Tells whether the list at `menu` begins with the back entry.
pub fn shows_back(menu: Menu) -> (b: bool)
    ensures
        b == has_back(menu),
{
    match menu {
        Menu::Initial => false,
        Menu::AddPass(AddPass::ChooseFileName) => false,
        Menu::AddPass(AddPass::ChooseEntryType) => false,
        Menu::ChangePass(ChangePass::ChooseNewPassEntryType) => false,
        _ => true,
    }
}

/// The hint to show at `menu`.
pub fn message_for(menu: Menu) -> (text: String)
    ensures
        text@ == message_text(menu),
{
    match menu {
        Menu::Initial => String::new(),
        Menu::CopyPass => String::from_str(
            "Password file selection, choose the password you wish to copy.",
        ),
        Menu::AddPass(AddPass::ChooseDir) => String::from_str(
            "Directory selection, choose one of the existing directories, or type a new custom one.",
        ),
        Menu::AddPass(AddPass::ChooseFileName) => String::from_str(
            "File name input, type the file name you wish to save the password to. It could be the url of the site the password belongs to, or just the name, for example archlinux.org, or just simply archlinux.",
        ),
        Menu::AddPass(AddPass::ChooseEntryType) => String::from_str(
            "Input method selection, choose if you wish to have a password simply generated for you, or if you wish to add an already existing one.",
        ),
        Menu::ChangePass(ChangePass::ChooseFile) => String::from_str(
            "Password changing file selection, type the file name of the password you wish to change.",
        ),
        Menu::ChangePass(ChangePass::ChooseNewPassEntryType) => String::from_str(
            "Input method selection, choose if you wish to have the new password simply generated for you, or if you wish to change to your own existing one.",
        ),
    }
}

} // verus!
