//! The menu as a state machine: the session after each event, and what holds of it.

use vstd::prelude::*;
use vstd::string::*;
use crate::complete::{completion, has_candidate};
use crate::error::LogicError;
use crate::event::{Directive, EffectView, Event, Reaction};
use crate::menu::{
    add_label, back_operator, change_label, copy_label, entry_type_menu, generate_label, has_back,
    initial_menu, input_label, AddPass, ChangePass, Menu, PasswordEntryType,
};
use crate::path::{absolute, absolutes, display_path, display_paths, lemma_root_is_elided};
use crate::tree::{directory_listing, file_listing, Node};

verus! {

/// The session over sequences of characters.
pub struct ModiView {
    pub entries: Seq<Seq<char>>,
    pub previous_output: Seq<char>,
    pub menu: Menu,
    pub passwd_dir: Seq<char>,
    pub passwd_file_name: Seq<char>,
    pub passwd_entry_type: PasswordEntryType,
    pub store_root: Seq<char>,
}

/// A session, the input and the answer after an event.
pub struct Step {
    pub state: ModiView,
    pub input: Seq<char>,
    pub directive: Directive,
    pub effect: EffectView,
}

/// The session at its start, for a store at `store_root`.
pub open spec fn initial_state(store_root: Seq<char>) -> ModiView {
    ModiView {
        entries: initial_menu(),
        previous_output: Seq::empty(),
        menu: Menu::Initial,
        passwd_dir: Seq::empty(),
        passwd_file_name: Seq::empty(),
        passwd_entry_type: PasswordEntryType::UserInput,
        store_root,
    }
}

/// The session after it moved to `menu` with `content` to show: the list is the back
/// entry, where `menu` has one, and then `content`; nothing is confirmed by completion.
pub open spec fn opened(s: ModiView, menu: Menu, content: Seq<Seq<char>>) -> ModiView {
    ModiView {
        entries: if has_back(menu) {
            seq![back_operator()] + content
        } else {
            content
        },
        previous_output: Seq::empty(),
        menu,
        ..s
    }
}

/// The session as an event finds it: with an empty input nothing counts as confirmed
/// by completion.
pub open spec fn settled(s: ModiView, input: Seq<char>) -> ModiView {
    if input.len() == 0 {
        ModiView { previous_output: Seq::empty(), ..s }
    } else {
        s
    }
}

/// The display forms of the store's shown files.
pub open spec fn shown_files(store: Seq<Node>, root: Seq<char>) -> Seq<Seq<char>> {
    display_paths(absolutes(root, file_listing(store)), root)
}

/// The text that completion starts from: the input where there is one, else the
/// highlighted entry (the first where none is highlighted), and in place of the back
/// entry the second entry.
pub open spec fn completion_candidate(
    entries: Seq<Seq<char>>,
    selected: Option<usize>,
    input: Seq<char>,
) -> Result<Seq<char>, LogicError> {
    let index: int = match selected {
        Some(i) => i as int,
        None => 0,
    };
    if input.len() > 0 {
        Ok(input)
    } else if index >= entries.len() {
        Err(LogicError::IndexOutOfRange)
    } else if entries[index] == back_operator() {
        if entries.len() < 2 {
            Err(LogicError::IndexOutOfRange)
        } else {
            Ok(entries[1])
        }
    } else {
        Ok(entries[index])
    }
}

/// The answer that leaves session and input as they are.
pub open spec fn unchanged(
    s: ModiView,
    input: Seq<char>,
    directive: Directive,
    effect: EffectView,
) -> Result<Step, LogicError> {
    Ok(Step { state: s, input, directive, effect })
}

/// The answer that moves to `menu` with `content`, clears the input and has the list
/// shown again.
pub open spec fn moved(s: ModiView, menu: Menu, content: Seq<Seq<char>>) -> Result<
    Step,
    LogicError,
> {
    Ok(
        Step {
            state: opened(s, menu, content),
            input: Seq::empty(),
            directive: Directive::Reload,
            effect: EffectView::Nothing,
        },
    )
}

/// The answer to a request for completion.
pub open spec fn step_complete(s: ModiView, selected: Option<usize>, input: Seq<char>) -> Result<
    Step,
    LogicError,
> {
    if s.menu == Menu::Initial || s.entries.contains(input) {
        unchanged(s, input, Directive::NativeMode, EffectView::Nothing)
    } else {
        match completion_candidate(s.entries, selected, input) {
            Err(e) => Err(e),
            Ok(candidate) => if !has_candidate(s.entries, candidate) {
                Err(LogicError::NoFallbackCandidate)
            } else {
                let output = completion(s.entries, s.previous_output, candidate);
                Ok(
                    Step {
                        state: ModiView { previous_output: output.push('/'), ..s },
                        input: output,
                        directive: Directive::Reload,
                        effect: EffectView::Nothing,
                    },
                )
            },
        }
    }
}

/// The answer to the choice of `entry` where it is neither a label of the initial
/// menu that opens a flow nor the back entry.
pub open spec fn step_choice(s: ModiView, entry: Seq<char>, input: Seq<char>) -> Result<
    Step,
    LogicError,
> {
    match s.menu {
        Menu::CopyPass => unchanged(
            s,
            input,
            Directive::Exit,
            EffectView::RunPass { command: "show"@, flags: "-c"@, argument: entry },
        ),
        Menu::AddPass(AddPass::ChooseDir) => moved(
            ModiView { passwd_dir: entry, ..s },
            Menu::AddPass(AddPass::ChooseFileName),
            Seq::empty(),
        ),
        Menu::AddPass(AddPass::ChooseEntryType) => if entry == input_label() {
            unchanged(
                ModiView { passwd_entry_type: PasswordEntryType::UserInput, ..s },
                input,
                Directive::Exit,
                EffectView::ConfirmAdd {
                    directory: s.passwd_dir,
                    file_name: s.passwd_file_name,
                    entry_type: PasswordEntryType::UserInput,
                },
            )
        } else if entry == generate_label() {
            unchanged(
                s,
                input,
                Directive::Exit,
                EffectView::RunPass {
                    command: "generate"@,
                    flags: "-c"@,
                    argument: s.passwd_dir.push('/') + s.passwd_file_name,
                },
            )
        } else {
            unchanged(s, input, Directive::Exit, EffectView::Echo { text: entry })
        },
        Menu::ChangePass(ChangePass::ChooseFile) => moved(
            ModiView { passwd_file_name: entry, ..s },
            Menu::ChangePass(ChangePass::ChooseNewPassEntryType),
            entry_type_menu(),
        ),
        Menu::ChangePass(ChangePass::ChooseNewPassEntryType) => if entry == input_label() {
            unchanged(
                ModiView { passwd_entry_type: PasswordEntryType::UserInput, ..s },
                input,
                Directive::Exit,
                EffectView::ConfirmChange {
                    file_name: s.passwd_file_name,
                    entry_type: PasswordEntryType::UserInput,
                },
            )
        } else if entry == generate_label() {
            unchanged(
                s,
                input,
                Directive::Exit,
                EffectView::RunPass {
                    command: "generate"@,
                    flags: "-cf"@,
                    argument: s.passwd_file_name,
                },
            )
        } else {
            unchanged(s, input, Directive::Exit, EffectView::Echo { text: entry })
        },
        _ => unchanged(s, input, Directive::Exit, EffectView::Echo { text: entry }),
    }
}

/// The answer to the acceptance of the entry at `selected`.
pub open spec fn step_select(s: ModiView, selected: usize, input: Seq<char>, store: Seq<Node>) -> Result<
    Step,
    LogicError,
> {
    if selected >= s.entries.len() {
        Err(LogicError::IndexOutOfRange)
    } else {
        let entry = s.entries[selected as int];
        if entry == copy_label() {
            moved(s, Menu::CopyPass, shown_files(store, s.store_root))
        } else if entry == add_label() {
            moved(s, Menu::AddPass(AddPass::ChooseDir), directory_listing(store))
        } else if entry == change_label() {
            moved(s, Menu::ChangePass(ChangePass::ChooseFile), shown_files(store, s.store_root))
        } else if entry == back_operator() {
            moved(s, Menu::Initial, initial_menu())
        } else {
            step_choice(s, entry, input)
        }
    }
}

/// The answer to the acceptance of the typed input.
pub open spec fn step_input(s: ModiView, input: Seq<char>) -> Result<Step, LogicError> {
    match s.menu {
        Menu::CopyPass => unchanged(
            s,
            input,
            Directive::Exit,
            EffectView::RunPass { command: "show"@, flags: "-c"@, argument: input },
        ),
        Menu::AddPass(AddPass::ChooseDir) => moved(
            ModiView { passwd_dir: input, ..s },
            Menu::AddPass(AddPass::ChooseFileName),
            Seq::empty(),
        ),
        Menu::AddPass(AddPass::ChooseFileName) => moved(
            ModiView { passwd_file_name: input, ..s },
            Menu::AddPass(AddPass::ChooseEntryType),
            entry_type_menu(),
        ),
        _ => unchanged(s, input, Directive::Exit, EffectView::Echo { text: input }),
    }
}

/// The answer to `event`, from the session `s`, the input and the store's tree.
pub open spec fn step(s: ModiView, event: Event, input: Seq<char>, store: Seq<Node>) -> Result<
    Step,
    LogicError,
> {
    let found = settled(s, input);
    match event {
        Event::Cancel => unchanged(found, input, Directive::Exit, EffectView::Nothing),
        Event::Accept { selected } => step_select(found, selected, input, store),
        Event::CustomInput => step_input(found, input),
        Event::CustomCommand { number, selected } => if number == 0 {
            step_complete(found, selected, input)
        } else {
            unchanged(found, input, Directive::NativeMode, EffectView::Nothing)
        },
        _ => unchanged(found, input, Directive::NativeMode, EffectView::Nothing),
    }
}

/// The event makes the session list the store: it accepts one of the three labels of
/// the initial menu that open a flow.
pub open spec fn reads_store(s: ModiView, event: Event) -> bool {
    match event {
        Event::Accept { selected } => selected < s.entries.len() && {
            let entry = s.entries[selected as int];
            entry == copy_label() || entry == add_label() || entry == change_label()
        },
        _ => false,
    }
}

/// The answer `r`, the session `after` and the input `input_after` are what `expected`
/// asks for; after an error, session and input are as `before` and `input_before`.
pub open spec fn answers(
    expected: Result<Step, LogicError>,
    r: Result<Reaction, LogicError>,
    before: ModiView,
    input_before: Seq<char>,
    after: ModiView,
    input_after: Seq<char>,
) -> bool {
    match expected {
        Ok(next) => {
            &&& r is Ok
            &&& r->Ok_0.directive == next.directive
            &&& r->Ok_0.effect@ == next.effect
            &&& after == next.state
            &&& input_after == next.input
        },
        Err(e) => {
            &&& r is Err
            &&& r->Err_0 == e
            &&& after == before
            &&& input_after == input_before
        },
    }
}

/// A request to complete an input that is one of the entries changes nothing and
/// hands the event back to the host, so that the entry is accepted as it stands.
pub proof fn lemma_complete_entry_is_accepted(
    s: ModiView,
    selected: Option<usize>,
    input: Seq<char>,
    store: Seq<Node>,
)
    requires
        s.entries.contains(input),
    ensures
        step(s, Event::CustomCommand { number: 0, selected }, input, store) == unchanged(
            settled(s, input),
            input,
            Directive::NativeMode,
            EffectView::Nothing,
        ),
{
}

/// Accepting the back entry leads to the initial menu from every position: the list
/// is then the four entries of the initial menu, and the input is empty.
pub proof fn lemma_back_leads_to_initial(
    s: ModiView,
    selected: usize,
    input: Seq<char>,
    store: Seq<Node>,
)
    requires
        selected < s.entries.len(),
        s.entries[selected as int] == back_operator(),
    ensures
        step(s, Event::Accept { selected }, input, store) is Ok,
        step(s, Event::Accept { selected }, input, store)->Ok_0.state.entries == initial_menu(),
        step(s, Event::Accept { selected }, input, store)->Ok_0.state.menu == Menu::Initial,
        step(s, Event::Accept { selected }, input, store)->Ok_0.input == Seq::<char>::empty(),
        step(s, Event::Accept { selected }, input, store)->Ok_0.directive == Directive::Reload,
{
    reveal_strlit("..");
    reveal_strlit("Copy password");
    reveal_strlit("Add new password");
    reveal_strlit("Change password");
    assert(back_operator().len() == 2);
    assert(copy_label().len() == 13);
    assert(add_label().len() == 16);
    assert(change_label().len() == 15);
}

/// An event that changes the position in the menu leaves the input empty and nothing
/// confirmed by completion.
pub proof fn lemma_transition_clears_input(
    s: ModiView,
    event: Event,
    input: Seq<char>,
    store: Seq<Node>,
)
    requires
        step(s, event, input, store) is Ok,
        step(s, event, input, store)->Ok_0.state.menu != s.menu,
    ensures
        step(s, event, input, store)->Ok_0.input == Seq::<char>::empty(),
        step(s, event, input, store)->Ok_0.state.previous_output == Seq::<char>::empty(),
        step(s, event, input, store)->Ok_0.directive == Directive::Reload,
{
}

/// No event changes the store root's path.
pub proof fn lemma_store_root_is_kept(s: ModiView, event: Event, input: Seq<char>, store: Seq<Node>)
    requires
        step(s, event, input, store) is Ok,
    ensures
        step(s, event, input, store)->Ok_0.state.store_root == s.store_root,
{
}

/// The files are shown as the display forms of their paths relative to the root.
pub proof fn lemma_shown_files_are_relative(store: Seq<Node>, root: Seq<char>)
    ensures
        shown_files(store, root) == display_paths(file_listing(store), root),
{
    let relative = file_listing(store);
    assert forall|i: int| 0 <= i < relative.len() implies display_path(
        absolute(root, relative[i]),
        root,
    ) == display_path(relative[i], root) by {
        lemma_root_is_elided(root, relative[i]);
    }
    assert(shown_files(store, root) =~= display_paths(relative, root));
}

/// A completion that expands the input confirms the new input and a separator, and
/// leaves the entry list and the position as they were.
pub proof fn lemma_completion_confirms_input(
    s: ModiView,
    selected: Option<usize>,
    input: Seq<char>,
    store: Seq<Node>,
)
    requires
        step(s, Event::CustomCommand { number: 0, selected }, input, store) is Ok,
        step(s, Event::CustomCommand { number: 0, selected }, input, store)->Ok_0.directive
            == Directive::Reload,
    ensures
        ({
            let next = step(s, Event::CustomCommand { number: 0, selected }, input, store)->Ok_0;
            &&& next.state.previous_output == next.input.push('/')
            &&& next.state.entries == s.entries
            &&& next.state.menu == s.menu
            &&& s.menu != Menu::Initial
            &&& !s.entries.contains(input)
        }),
{
}

/// After an event that came with an empty input, and that asked for no completion,
/// nothing counts as confirmed by completion.
pub proof fn lemma_empty_input_clears_confirmed(s: ModiView, event: Event, store: Seq<Node>)
    requires
        step(s, event, Seq::empty(), store) is Ok,
        !(event is CustomCommand && event->number == 0),
    ensures
        step(s, event, Seq::empty(), store)->Ok_0.state.previous_output == Seq::<char>::empty(),
{
}

/// A list that is opened at a position without a way back is the content alone.
pub proof fn lemma_no_back_entry(s: ModiView, menu: Menu, content: Seq<Seq<char>>)
    requires
        !has_back(menu),
    ensures
        opened(s, menu, content).entries == content,
{
}

/// A list that is opened at a position with a way back begins with the back entry.
pub proof fn lemma_back_entry_comes_first(s: ModiView, menu: Menu, content: Seq<Seq<char>>)
    requires
        has_back(menu),
    ensures
        opened(s, menu, content).entries[0] == back_operator(),
        opened(s, menu, content).entries.len() == content.len() + 1,
{
}

} // verus!
