//! The menu's session: its state, and the reaction to each event of the host.

use vstd::prelude::*;
use vstd::string::*;
use crate::complete::{complete, completion, has_candidate};
use crate::error::LogicError;
use crate::event::{Directive, Effect, Event, Reaction};
use crate::menu::{
    back_operator, entry_type_entries, has_back, initial_entries, message_for, message_text,
    shows_back, AddPass, ChangePass, Menu, PasswordEntryType,
};
use crate::path::{
    absolute, absolutes, display_path_of, display_paths, lemma_display_path_keeps_segments_plain,
    lemma_root_is_elided,
};
use crate::text::{no_hidden_segment, str_eq, views};
use crate::transition::{
    answers, initial_state, opened, reads_store, settled, shown_files, step, step_choice,
    step_complete, step_input, step_select, ModiView,
};
use crate::tree::{directory_listing, StoreTree};

verus! {

/// The session: the entry list, what completion confirmed so far, the position in
/// the menu, what the user chose so far, and the store root's path.
pub struct ClipKeeperModi {
    entries: Vec<String>,
    previous_output: String,
    menu: Menu,
    passwd_dir: String,
    passwd_file_name: String,
    passwd_entry_type: PasswordEntryType,
    store_root: String,
}

impl View for ClipKeeperModi {
    type V = ModiView;

    closed spec fn view(&self) -> ModiView {
        ModiView {
            entries: views(self.entries@),
            previous_output: self.previous_output@,
            menu: self.menu,
            passwd_dir: self.passwd_dir@,
            passwd_file_name: self.passwd_file_name@,
            passwd_entry_type: self.passwd_entry_type,
            store_root: self.store_root@,
        }
    }
}

/// The name of the store's directory below the home directory.
pub open spec fn store_folder() -> Seq<char> {
    ".password-store"@
}

/// The store root's path: the override where there is one, else the store's folder
/// below the home directory, or the bare folder name where no home directory is known.
pub open spec fn store_location(dir: Option<Seq<char>>, home: Option<Seq<char>>) -> Seq<char> {
    match dir {
        Some(d) => d,
        None => {
            let base = match home {
                Some(h) => h,
                None => Seq::empty(),
            };
            if base.len() == 0 {
                store_folder()
            } else if base.last() == '/' {
                base + store_folder()
            } else {
                base.push('/') + store_folder()
            }
        },
    }
}

/// Tells whether one of `entries` is `text`.
pub fn holds_entry(entries: &Vec<String>, text: &str) -> (b: bool)
    ensures
        b == views(entries@).contains(text@),
{
    let n: usize = entries.len();
    let mut i: usize = 0;
    while i < n
        invariant
            n == entries@.len(),
            i <= n,
            forall|j: int| 0 <= j < i ==> views(entries@)[j] != text@,
        decreases n - i,
    {
        assert(views(entries@)[i as int] == entries@[i as int]@);
        if str_eq(entries[i].as_str(), text) {
            return true;
        }
        i += 1;
    }
    false
}

/// A copy of `s`.
fn copy_of(s: &String) -> (r: String)
    ensures
        r@ == s@,
{
    String::from_str(s.as_str())
}

impl ClipKeeperModi {
    /// Starts a session at the initial menu, for a store at `store_root`.
    pub fn new(store_root: String) -> (modi: Self)
        ensures
            modi@ == initial_state(store_root@),
    {
        ClipKeeperModi {
            entries: initial_entries(),
            previous_output: String::new(),
            menu: Menu::Initial,
            passwd_dir: String::new(),
            passwd_file_name: String::new(),
            passwd_entry_type: PasswordEntryType::UserInput,
            store_root,
        }
    }

    /// Works out the store root's path from the override, if set, and the home
    /// directory, if known.
    pub fn get_password_store_location(dir: Option<String>, home: Option<String>) -> (path: String)
        ensures
            path@ == store_location(
                match dir {
                    Some(d) => Some(d@),
                    None => None,
                },
                match home {
                    Some(h) => Some(h@),
                    None => None,
                },
            ),
    {
        match dir {
            Some(d) => d,
            None => {
                let mut path = match home {
                    Some(h) => h,
                    None => String::new(),
                };
                let n: usize = path.as_str().unicode_len();
                if n > 0 && path.as_str().get_char(n - 1) != '/' {
                    path.append("/");
                    proof {
                        reveal_strlit("/");
                        assert("/"@ =~= seq!['/']);
                    }
                }
                let ghost base = path@;
                path.append(".password-store");
                assert(path@ =~= base + store_folder());
                assert(Seq::<char>::empty() + store_folder() =~= store_folder());
                path
            },
        }
    }

    /// The display form of each of `items`, for this session's store root.
    pub fn strip_prefix(&self, items: Vec<String>) -> (out: Vec<String>)
        ensures
            views(out@) == display_paths(views(items@), self@.store_root),
    {
        let n: usize = items.len();
        let mut out: Vec<String> = Vec::new();
        let mut i: usize = 0;
        while i < n
            invariant
                n == items@.len(),
                i <= n,
                out@.len() == i,
                forall|j: int|
                    0 <= j < i ==> (#[trigger] out@[j])@ == display_paths(
                        views(items@),
                        self.store_root@,
                    )[j],
            decreases n - i,
        {
            assert(views(items@)[i as int] == items@[i as int]@);
            out.push(display_path_of(items[i].as_str(), self.store_root.as_str()));
            i += 1;
        }
        assert(views(out@) =~= display_paths(views(items@), self.store_root@));
        out
    }

    /// Lists the store's shown directories, each by its path relative to the root.
    pub fn list_dirs(&self, store: &StoreTree) -> (out: Vec<String>)
        ensures
            views(out@) == directory_listing(store@),
    {
        store.list_dirs()
    }

    /// Lists the store's shown files, each in its display form. No segment of a
    /// listed path begins with a dot.
    pub fn list_file_paths(&self, store: &StoreTree) -> (out: Vec<String>)
        ensures
            views(out@) == shown_files(store@, self@.store_root),
            forall|k: int| 0 <= k < out@.len() ==> #[trigger] no_hidden_segment(out@[k]@),
    {
        let relative = store.list_files();
        let n: usize = relative.len();
        let rooted: bool = self.store_root.as_str().unicode_len() > 0;
        let mut paths: Vec<String> = Vec::new();
        let mut i: usize = 0;
        while i < n
            invariant
                n == relative@.len(),
                i <= n,
                paths@.len() == i,
                rooted == (self.store_root@.len() > 0),
                forall|j: int|
                    0 <= j < i ==> (#[trigger] paths@[j])@ == absolute(
                        self.store_root@,
                        relative@[j]@,
                    ),
            decreases n - i,
        {
            let mut path = String::new();
            if rooted {
                path.append(self.store_root.as_str());
                path.append("/");
            }
            path.append(relative[i].as_str());
            proof {
                reveal_strlit("/");
                assert("/"@ =~= seq!['/']);
                assert(path@ =~= absolute(self.store_root@, relative@[i as int]@));
            }
            paths.push(path);
            i += 1;
        }
        assert(views(paths@) =~= absolutes(self.store_root@, views(relative@)));
        let out = self.strip_prefix(paths);
        proof {
            assert(views(out@).len() == out@.len());
            assert(views(relative@).len() == relative@.len());
            assert(views(paths@).len() == relative@.len());
            assert forall|k: int| 0 <= k < out@.len() implies #[trigger] no_hidden_segment(
                out@[k]@,
            ) by {
                assert(views(out@)[k] == out@[k]@);
                assert(views(relative@)[k] == relative@[k]@);
                assert(no_hidden_segment(relative@[k]@));
                lemma_root_is_elided(self.store_root@, relative@[k]@);
                lemma_display_path_keeps_segments_plain(relative@[k]@, self.store_root@);
            }
        }
        out
    }

    /// Completes `input` against the entry list by one path segment, from what
    /// completion confirmed so far. Fails where no entry begins with `input` and the
    /// list has no second entry.
    pub fn autocomplete(&self, input: &str) -> (r: Result<String, LogicError>)
        ensures
            match r {
                Ok(out) => has_candidate(self@.entries, input@) && out@ == completion(
                    self@.entries,
                    self@.previous_output,
                    input@,
                ),
                Err(e) => !has_candidate(self@.entries, input@) && e
                    == LogicError::NoFallbackCandidate,
            },
    {
        complete(&self.entries, self.previous_output.as_str(), input)
    }

    /// Moves to `new_menu` with `menu_content` to show, and clears the input and
    /// what completion confirmed.
    pub fn init_menu(&mut self, menu_content: Vec<String>, new_menu: Menu, input: &mut String)
        ensures
            final(self)@ == opened(old(self)@, new_menu, views(menu_content@)),
            final(input)@ == Seq::<char>::empty(),
    {
        let mut content = menu_content;
        let mut new_entries: Vec<String> = Vec::new();
        if shows_back(new_menu) {
            new_entries.push(String::from_str(".."));
        }
        let ghost head = new_entries@;
        new_entries.append(&mut content);
        assert(views(new_entries@) =~= views(head) + views(menu_content@));
        assert(has_back(new_menu) ==> views(head) =~= seq![back_operator()]);
        assert(!has_back(new_menu) ==> views(head) + views(menu_content@) =~= views(
            menu_content@,
        ));
        self.entries = new_entries;
        self.menu = new_menu;
        self.previous_output = String::new();
        *input = String::new();
    }

    /// The number of entries in the list.
    pub fn entries(&self) -> (n: usize)
        ensures
            n == self@.entries.len(),
    {
        self.entries.len()
    }

    /// The entry at `line`, where the list has one there.
    pub fn entry_content(&self, line: usize) -> (r: Result<String, LogicError>)
        ensures
            match r {
                Ok(text) => line < self@.entries.len() && text@ == self@.entries[line as int],
                Err(e) => line >= self@.entries.len() && e == LogicError::IndexOutOfRange,
            },
    {
        if line < self.entries.len() {
            Ok(copy_of(&self.entries[line]))
        } else {
            Err(LogicError::IndexOutOfRange)
        }
    }

    /// The hint for the position in the menu.
    pub fn message(&self) -> (text: String)
        ensures
            text@ == message_text(self@.menu),
    {
        message_for(self.menu)
    }

    /// The position in the menu.
    pub fn menu(&self) -> (menu: Menu)
        ensures
            menu == self@.menu,
    {
        self.menu
    }

    /// What completion confirmed so far.
    pub fn previous_output(&self) -> (text: String)
        ensures
            text@ == self@.previous_output,
    {
        copy_of(&self.previous_output)
    }

    /// The directory chosen for a new password.
    pub fn passwd_dir(&self) -> (text: String)
        ensures
            text@ == self@.passwd_dir,
    {
        copy_of(&self.passwd_dir)
    }

    /// The file name chosen for a password.
    pub fn passwd_file_name(&self) -> (text: String)
        ensures
            text@ == self@.passwd_file_name,
    {
        copy_of(&self.passwd_file_name)
    }

    /// The store root's path.
    pub fn store_root(&self) -> (text: String)
        ensures
            text@ == self@.store_root,
    {
        copy_of(&self.store_root)
    }
}

impl ClipKeeperModi {
    /// Tells whether the reaction to `event` lists the store, so that the store's
    /// tree has to be read before it.
    pub fn needs_store(&self, event: &Event) -> (b: bool)
        ensures
            b == reads_store(self@, *event),
    {
        match *event {
            Event::Accept { selected } => {
                if selected < self.entries.len() {
                    assert(views(self.entries@)[selected as int] == self.entries@[selected as int]@);
                    let entry = self.entries[selected].as_str();
                    str_eq(entry, "Copy password") || str_eq(entry, "Add new password") || str_eq(
                        entry,
                        "Change password",
                    )
                } else {
                    false
                }
            },
            _ => false,
        }
    }

    /// Reacts to a request for completion of the input.
    fn react_complete(&mut self, selected: Option<usize>, input: &mut String) -> (r: Result<
        Reaction,
        LogicError,
    >)
        ensures
            answers(
                step_complete(old(self)@, selected, old(input)@),
                r,
                old(self)@,
                old(input)@,
                final(self)@,
                final(input)@,
            ),
    {
        let native = Reaction { directive: Directive::NativeMode, effect: Effect::Nothing };
        match self.menu {
            Menu::Initial => {
                return Ok(native);
            },
            _ => {},
        }
        if holds_entry(&self.entries, input.as_str()) {
            return Ok(native);
        }
        let n: usize = self.entries.len();
        let candidate: String = if input.as_str().unicode_len() > 0 {
            String::from_str(input.as_str())
        } else {
            let index: usize = match selected {
                Some(i) => i,
                None => 0,
            };
            if index >= n {
                return Err(LogicError::IndexOutOfRange);
            }
            assert(views(self.entries@)[index as int] == self.entries@[index as int]@);
            if str_eq(self.entries[index].as_str(), "..") {
                if n < 2 {
                    return Err(LogicError::IndexOutOfRange);
                }
                assert(views(self.entries@)[1] == self.entries@[1]@);
                copy_of(&self.entries[1])
            } else {
                copy_of(&self.entries[index])
            }
        };
        match self.autocomplete(candidate.as_str()) {
            Err(e) => Err(e),
            Ok(output) => {
                let mut confirmed = copy_of(&output);
                confirmed.append("/");
                proof {
                    reveal_strlit("/");
                    assert(confirmed@ =~= output@.push('/'));
                }
                self.previous_output = confirmed;
                *input = output;
                Ok(Reaction { directive: Directive::Reload, effect: Effect::Nothing })
            },
        }
    }

    /// Reacts to the choice of an entry that opens no flow and is not the back entry.
    fn react_choice(&mut self, entry: String, input: &mut String) -> (r: Result<
        Reaction,
        LogicError,
    >)
        ensures
            answers(
                step_choice(old(self)@, entry@, old(input)@),
                r,
                old(self)@,
                old(input)@,
                final(self)@,
                final(input)@,
            ),
    {
        let reload = Reaction { directive: Directive::Reload, effect: Effect::Nothing };
        match self.menu {
            Menu::CopyPass => Ok(
                Reaction {
                    directive: Directive::Exit,
                    effect: Effect::RunPass {
                        command: String::from_str("show"),
                        flags: String::from_str("-c"),
                        argument: entry,
                    },
                },
            ),
            Menu::AddPass(AddPass::ChooseDir) => {
                self.passwd_dir = entry;
                let nothing: Vec<String> = Vec::new();
                assert(views(nothing@) =~= Seq::<Seq<char>>::empty());
                self.init_menu(nothing, Menu::AddPass(AddPass::ChooseFileName), input);
                Ok(reload)
            },
            Menu::AddPass(AddPass::ChooseEntryType) => {
                if str_eq(entry.as_str(), "Input") {
                    self.passwd_entry_type = PasswordEntryType::UserInput;
                    Ok(
                        Reaction {
                            directive: Directive::Exit,
                            effect: Effect::ConfirmAdd {
                                directory: copy_of(&self.passwd_dir),
                                file_name: copy_of(&self.passwd_file_name),
                                entry_type: PasswordEntryType::UserInput,
                            },
                        },
                    )
                } else if str_eq(entry.as_str(), "Generate") {
                    let mut argument = copy_of(&self.passwd_dir);
                    argument.append("/");
                    argument.append(self.passwd_file_name.as_str());
                    proof {
                        reveal_strlit("/");
                        assert(argument@ =~= self.passwd_dir@.push('/') + self.passwd_file_name@);
                    }
                    Ok(
                        Reaction {
                            directive: Directive::Exit,
                            effect: Effect::RunPass {
                                command: String::from_str("generate"),
                                flags: String::from_str("-c"),
                                argument,
                            },
                        },
                    )
                } else {
                    Ok(Reaction { directive: Directive::Exit, effect: Effect::Echo { text: entry } })
                }
            },
            Menu::ChangePass(ChangePass::ChooseFile) => {
                self.passwd_file_name = entry;
                self.init_menu(
                    entry_type_entries(),
                    Menu::ChangePass(ChangePass::ChooseNewPassEntryType),
                    input,
                );
                Ok(reload)
            },
            Menu::ChangePass(ChangePass::ChooseNewPassEntryType) => {
                if str_eq(entry.as_str(), "Input") {
                    self.passwd_entry_type = PasswordEntryType::UserInput;
                    Ok(
                        Reaction {
                            directive: Directive::Exit,
                            effect: Effect::ConfirmChange {
                                file_name: copy_of(&self.passwd_file_name),
                                entry_type: PasswordEntryType::UserInput,
                            },
                        },
                    )
                } else if str_eq(entry.as_str(), "Generate") {
                    Ok(
                        Reaction {
                            directive: Directive::Exit,
                            effect: Effect::RunPass {
                                command: String::from_str("generate"),
                                flags: String::from_str("-cf"),
                                argument: copy_of(&self.passwd_file_name),
                            },
                        },
                    )
                } else {
                    Ok(Reaction { directive: Directive::Exit, effect: Effect::Echo { text: entry } })
                }
            },
            _ => Ok(Reaction { directive: Directive::Exit, effect: Effect::Echo { text: entry } }),
        }
    }

    /// Reacts to the acceptance of the entry at `selected`.
    fn react_select(&mut self, selected: usize, input: &mut String, store: &StoreTree) -> (r: Result<
        Reaction,
        LogicError,
    >)
        ensures
            answers(
                step_select(old(self)@, selected, old(input)@, store@),
                r,
                old(self)@,
                old(input)@,
                final(self)@,
                final(input)@,
            ),
    {
        if selected >= self.entries.len() {
            return Err(LogicError::IndexOutOfRange);
        }
        assert(views(self.entries@)[selected as int] == self.entries@[selected as int]@);
        let entry: String = copy_of(&self.entries[selected]);
        let reload = Reaction { directive: Directive::Reload, effect: Effect::Nothing };
        if str_eq(entry.as_str(), "Copy password") {
            let files = self.list_file_paths(store);
            self.init_menu(files, Menu::CopyPass, input);
            return Ok(reload);
        }
        if str_eq(entry.as_str(), "Add new password") {
            let dirs = self.list_dirs(store);
            self.init_menu(dirs, Menu::AddPass(AddPass::ChooseDir), input);
            return Ok(reload);
        }
        if str_eq(entry.as_str(), "Change password") {
            let files = self.list_file_paths(store);
            self.init_menu(files, Menu::ChangePass(ChangePass::ChooseFile), input);
            return Ok(reload);
        }
        if str_eq(entry.as_str(), "..") {
            self.init_menu(initial_entries(), Menu::Initial, input);
            return Ok(reload);
        }
        self.react_choice(entry, input)
    }

    /// Reacts to the acceptance of the typed input.
    fn react_input(&mut self, input: &mut String) -> (r: Result<Reaction, LogicError>)
        ensures
            answers(
                step_input(old(self)@, old(input)@),
                r,
                old(self)@,
                old(input)@,
                final(self)@,
                final(input)@,
            ),
    {
        let typed: String = String::from_str(input.as_str());
        let reload = Reaction { directive: Directive::Reload, effect: Effect::Nothing };
        match self.menu {
            Menu::CopyPass => Ok(
                Reaction {
                    directive: Directive::Exit,
                    effect: Effect::RunPass {
                        command: String::from_str("show"),
                        flags: String::from_str("-c"),
                        argument: typed,
                    },
                },
            ),
            Menu::AddPass(AddPass::ChooseDir) => {
                self.passwd_dir = typed;
                let nothing: Vec<String> = Vec::new();
                assert(views(nothing@) =~= Seq::<Seq<char>>::empty());
                self.init_menu(nothing, Menu::AddPass(AddPass::ChooseFileName), input);
                Ok(reload)
            },
            Menu::AddPass(AddPass::ChooseFileName) => {
                self.passwd_file_name = typed;
                self.init_menu(
                    entry_type_entries(),
                    Menu::AddPass(AddPass::ChooseEntryType),
                    input,
                );
                Ok(reload)
            },
            _ => Ok(Reaction { directive: Directive::Exit, effect: Effect::Echo { text: typed } }),
        }
    }

    /// Reacts to an event of the host: changes the session and the input, and says
    /// what the host is to do and what is to happen outside. `store` is read only
    /// where the event makes the session list the store. An index beyond the entry
    /// list, or a completion without a candidate, is an error that leaves the input
    /// as it was.
    pub fn react(&mut self, event: Event, input: &mut String, store: &StoreTree) -> (r: Result<
        Reaction,
        LogicError,
    >)
        ensures
            answers(
                step(old(self)@, event, old(input)@, store@),
                r,
                settled(old(self)@, old(input)@),
                old(input)@,
                final(self)@,
                final(input)@,
            ),
    {
        if input.as_str().unicode_len() == 0 {
            self.previous_output = String::new();
        }
        assert(self@ == settled(old(self)@, old(input)@));
        match event {
            Event::Cancel => Ok(Reaction { directive: Directive::Exit, effect: Effect::Nothing }),
            Event::Accept { selected } => self.react_select(selected, input, store),
            Event::CustomInput => self.react_input(input),
            Event::CustomCommand { number, selected } => {
                if number == 0 {
                    self.react_complete(selected, input)
                } else {
                    Ok(Reaction { directive: Directive::NativeMode, effect: Effect::Nothing })
                }
            },
            _ => Ok(Reaction { directive: Directive::NativeMode, effect: Effect::Nothing }),
        }
    }
}

} // verus!
