use clip_keeper::error::LogicError;
use clip_keeper::menu::{
    entry_type_entries, initial_entries, message_for, shows_back, AddPass, ChangePass, Menu,
    PasswordEntryType,
};
use clip_keeper::event::{Directive, Effect, Event, Reaction};
use clip_keeper::modi::{holds_entry, ClipKeeperModi};
use clip_keeper::tree::StoreTree;

const ROOT: &str = "/home/u/.password-store";

fn store() -> StoreTree {
    let mut t = StoreTree::new();
    let work = t.push("work".to_string(), None, true, false).unwrap();
    t.push("example.org.gpg".to_string(), Some(work), false, true).unwrap();
    t.push("site2.gpg".to_string(), Some(work), false, true).unwrap();
    let git = t.push(".git".to_string(), None, true, false).unwrap();
    t.push("config".to_string(), Some(git), false, true).unwrap();
    t.push("top.gpg".to_string(), None, false, true).unwrap();
    t
}

fn session() -> ClipKeeperModi {
    ClipKeeperModi::new(ROOT.to_string())
}

fn entries_of(m: &ClipKeeperModi) -> Vec<String> {
    (0..m.entries()).map(|i| m.entry_content(i).unwrap()).collect()
}

fn accept(m: &mut ClipKeeperModi, label: &str, input: &mut String, s: &StoreTree) -> Reaction {
    let selected = entries_of(m).iter().position(|e| e == label).unwrap();
    m.react(Event::Accept { selected }, input, s).unwrap()
}

fn is_nothing(effect: &Effect) -> bool {
    matches!(effect, Effect::Nothing)
}

#[test]
fn starts_at_the_initial_menu() {
    let m = session();
    assert_eq!(m.menu(), Menu::Initial);
    assert_eq!(
        entries_of(&m),
        vec!["Copy password", "Add new password", "Change password", "Quit"]
    );
    assert_eq!(m.entries(), 4);
    assert_eq!(m.previous_output(), "");
    assert_eq!(m.passwd_dir(), "");
    assert_eq!(m.passwd_file_name(), "");
    assert_eq!(m.store_root(), ROOT);
    assert_eq!(m.message(), "");
}

#[test]
fn fixed_entry_lists() {
    assert_eq!(
        initial_entries(),
        vec!["Copy password", "Add new password", "Change password", "Quit"]
    );
    assert_eq!(entry_type_entries(), vec!["Input", "Generate"]);
}

#[test]
fn entry_content_checks_the_index() {
    let m = session();
    assert_eq!(m.entry_content(3), Ok("Quit".to_string()));
    assert_eq!(m.entry_content(4), Err(LogicError::IndexOutOfRange));
}

#[test]
fn back_entry_only_where_there_is_a_way_back() {
    assert!(!shows_back(Menu::Initial));
    assert!(shows_back(Menu::CopyPass));
    assert!(shows_back(Menu::AddPass(AddPass::ChooseDir)));
    assert!(!shows_back(Menu::AddPass(AddPass::ChooseFileName)));
    assert!(!shows_back(Menu::AddPass(AddPass::ChooseEntryType)));
    assert!(shows_back(Menu::ChangePass(ChangePass::ChooseFile)));
    assert!(!shows_back(Menu::ChangePass(ChangePass::ChooseNewPassEntryType)));
}

#[test]
fn each_position_has_its_message() {
    let all = [
        Menu::CopyPass,
        Menu::AddPass(AddPass::ChooseDir),
        Menu::AddPass(AddPass::ChooseFileName),
        Menu::AddPass(AddPass::ChooseEntryType),
        Menu::ChangePass(ChangePass::ChooseFile),
        Menu::ChangePass(ChangePass::ChooseNewPassEntryType),
    ];
    for (i, a) in all.iter().enumerate() {
        assert!(!message_for(*a).is_empty());
        for b in &all[i + 1..] {
            assert_ne!(message_for(*a), message_for(*b));
        }
    }
    assert_eq!(message_for(Menu::Initial), "");
    assert_eq!(
        message_for(Menu::CopyPass),
        "Password file selection, choose the password you wish to copy."
    );
}

#[test]
fn store_location_prefers_the_override() {
    assert_eq!(
        ClipKeeperModi::get_password_store_location(
            Some("/srv/pw".to_string()),
            Some("/home/u".to_string())
        ),
        "/srv/pw"
    );
}

#[test]
fn store_location_falls_back_to_home() {
    assert_eq!(
        ClipKeeperModi::get_password_store_location(None, Some("/home/u".to_string())),
        "/home/u/.password-store"
    );
    assert_eq!(
        ClipKeeperModi::get_password_store_location(None, Some("/home/u/".to_string())),
        "/home/u/.password-store"
    );
    assert_eq!(ClipKeeperModi::get_password_store_location(None, None), ".password-store");
    assert_eq!(
        ClipKeeperModi::get_password_store_location(None, Some(String::new())),
        ".password-store"
    );
}

#[test]
fn strip_prefix_maps_each_item() {
    let m = session();
    let items = vec![
        "/home/u/.password-store/work/example.org.gpg".to_string(),
        "/home/u/.password-store/top.gpg".to_string(),
    ];
    assert_eq!(m.strip_prefix(items), vec!["work/example", "top"]);
    assert!(m.strip_prefix(Vec::new()).is_empty());
}

#[test]
fn listings_of_the_session() {
    let m = session();
    assert_eq!(m.list_dirs(&store()), vec!["work"]);
    assert_eq!(m.list_file_paths(&store()), vec!["work/example", "work/site2", "top"]);
    let bare = ClipKeeperModi::new(String::new());
    assert_eq!(bare.list_file_paths(&store()), vec!["work/example", "work/site2", "top"]);
}

#[test]
fn init_menu_replaces_list_and_clears_input() {
    let mut m = session();
    let mut input = "typed".to_string();
    m.init_menu(vec!["a".to_string(), "b".to_string()], Menu::CopyPass, &mut input);
    assert_eq!(entries_of(&m), vec!["..", "a", "b"]);
    assert_eq!(m.menu(), Menu::CopyPass);
    assert_eq!(input, "");
    assert_eq!(m.previous_output(), "");
    m.init_menu(vec!["x".to_string()], Menu::AddPass(AddPass::ChooseEntryType), &mut input);
    assert_eq!(entries_of(&m), vec!["x"]);
}

#[test]
fn holds_entry_is_exact() {
    let list = vec!["..".to_string(), "work/site".to_string()];
    assert!(holds_entry(&list, "work/site"));
    assert!(!holds_entry(&list, "work"));
    assert!(!holds_entry(&list, ""));
}

#[test]
fn needs_store_only_for_the_three_flows() {
    let m = session();
    assert!(m.needs_store(&Event::Accept { selected: 0 }));
    assert!(m.needs_store(&Event::Accept { selected: 1 }));
    assert!(m.needs_store(&Event::Accept { selected: 2 }));
    assert!(!m.needs_store(&Event::Accept { selected: 3 }));
    assert!(!m.needs_store(&Event::Accept { selected: 4 }));
    assert!(!m.needs_store(&Event::CustomInput));
    assert!(!m.needs_store(&Event::Cancel));
}

#[test]
fn scenario_copy_password() {
    let s = store();
    let mut m = session();
    let mut input = String::new();
    let r = accept(&mut m, "Copy password", &mut input, &s);
    assert_eq!(r.directive, Directive::Reload);
    assert!(is_nothing(&r.effect));
    assert_eq!(m.menu(), Menu::CopyPass);
    assert_eq!(entries_of(&m), vec!["..", "work/example", "work/site2", "top"]);
    let r = accept(&mut m, "work/example", &mut input, &s);
    assert_eq!(r.directive, Directive::Exit);
    match r.effect {
        Effect::RunPass { command, flags, argument } => {
            assert_eq!(command, "show");
            assert_eq!(flags, "-c");
            assert_eq!(argument, "work/example");
        }
        other => panic!("unexpected effect {:?}", other),
    }
}

#[test]
fn scenario_add_password_generate() {
    let s = store();
    let mut m = session();
    let mut input = String::new();
    let r = accept(&mut m, "Add new password", &mut input, &s);
    assert_eq!(r.directive, Directive::Reload);
    assert_eq!(m.menu(), Menu::AddPass(AddPass::ChooseDir));
    assert_eq!(entries_of(&m), vec!["..", "work"]);
    let r = accept(&mut m, "work", &mut input, &s);
    assert_eq!(r.directive, Directive::Reload);
    assert_eq!(m.menu(), Menu::AddPass(AddPass::ChooseFileName));
    assert_eq!(m.entries(), 0);
    assert_eq!(m.passwd_dir(), "work");
    input = "example.org".to_string();
    let r = m.react(Event::CustomInput, &mut input, &s).unwrap();
    assert_eq!(r.directive, Directive::Reload);
    assert_eq!(input, "");
    assert_eq!(m.menu(), Menu::AddPass(AddPass::ChooseEntryType));
    assert_eq!(entries_of(&m), vec!["Input", "Generate"]);
    assert_eq!(m.passwd_file_name(), "example.org");
    let r = accept(&mut m, "Generate", &mut input, &s);
    assert_eq!(r.directive, Directive::Exit);
    match r.effect {
        Effect::RunPass { command, flags, argument } => {
            assert_eq!(command, "generate");
            assert_eq!(flags, "-c");
            assert_eq!(argument, "work/example.org");
        }
        other => panic!("unexpected effect {:?}", other),
    }
}

#[test]
fn scenario_change_password_input() {
    let mut s = StoreTree::new();
    let work = s.push("work".to_string(), None, true, false).unwrap();
    s.push("example.gpg".to_string(), Some(work), false, true).unwrap();
    let mut m = session();
    let mut input = String::new();
    let r = accept(&mut m, "Change password", &mut input, &s);
    assert_eq!(r.directive, Directive::Reload);
    assert_eq!(m.menu(), Menu::ChangePass(ChangePass::ChooseFile));
    m.init_menu(
        vec!["work/example.org".to_string()],
        Menu::ChangePass(ChangePass::ChooseFile),
        &mut input,
    );
    let r = accept(&mut m, "work/example.org", &mut input, &s);
    assert_eq!(r.directive, Directive::Reload);
    assert_eq!(m.menu(), Menu::ChangePass(ChangePass::ChooseNewPassEntryType));
    assert_eq!(entries_of(&m), vec!["Input", "Generate"]);
    let r = accept(&mut m, "Input", &mut input, &s);
    assert_eq!(r.directive, Directive::Exit);
    assert_eq!(
        r.effect.printed(),
        Some(
            "PASS_CHNG: [PASSWD_FILE_NAME: work/example.org, PASSWD_ENTRY_TYPE: UserInput]"
                .to_string()
        )
    );
    match r.effect {
        Effect::ConfirmChange { file_name, entry_type } => {
            assert_eq!(file_name, "work/example.org");
            assert_eq!(entry_type, PasswordEntryType::UserInput);
        }
        other => panic!("unexpected effect {:?}", other),
    }
}

#[test]
fn change_password_generate_forces() {
    let s = store();
    let mut m = session();
    let mut input = String::new();
    accept(&mut m, "Change password", &mut input, &s);
    accept(&mut m, "top", &mut input, &s);
    let r = accept(&mut m, "Generate", &mut input, &s);
    assert_eq!(r.directive, Directive::Exit);
    match r.effect {
        Effect::RunPass { command, flags, argument } => {
            assert_eq!(command, "generate");
            assert_eq!(flags, "-cf");
            assert_eq!(argument, "top");
        }
        other => panic!("unexpected effect {:?}", other),
    }
}

#[test]
fn add_password_input_confirms() {
    let s = store();
    let mut m = session();
    let mut input = String::new();
    accept(&mut m, "Add new password", &mut input, &s);
    input = "new/dir".to_string();
    let r = m.react(Event::CustomInput, &mut input, &s).unwrap();
    assert_eq!(r.directive, Directive::Reload);
    assert_eq!(m.passwd_dir(), "new/dir");
    input = "site".to_string();
    m.react(Event::CustomInput, &mut input, &s).unwrap();
    let r = accept(&mut m, "Input", &mut input, &s);
    assert_eq!(r.directive, Directive::Exit);
    assert_eq!(
        r.effect.printed(),
        Some(
            "PASS_ADD: [PASSWD_DIR: new/dir, PASSWD_FILE_NAME: site, PASSWD_ENTRY_TYPE: UserInput]"
                .to_string()
        )
    );
    match r.effect {
        Effect::ConfirmAdd { directory, file_name, entry_type } => {
            assert_eq!(directory, "new/dir");
            assert_eq!(file_name, "site");
            assert_eq!(entry_type, PasswordEntryType::UserInput);
        }
        other => panic!("unexpected effect {:?}", other),
    }
}

#[test]
fn back_leads_to_the_initial_menu() {
    let s = store();
    for label in ["Copy password", "Add new password", "Change password"] {
        let mut m = session();
        let mut input = String::new();
        accept(&mut m, label, &mut input, &s);
        assert_ne!(m.menu(), Menu::Initial);
        assert_eq!(m.entry_content(0), Ok("..".to_string()));
        input = "wo".to_string();
        let r = m.react(Event::Accept { selected: 0 }, &mut input, &s).unwrap();
        assert_eq!(r.directive, Directive::Reload);
        assert!(is_nothing(&r.effect));
        assert_eq!(m.menu(), Menu::Initial);
        assert_eq!(
            entries_of(&m),
            vec!["Copy password", "Add new password", "Change password", "Quit"]
        );
        assert_eq!(input, "");
        assert_eq!(m.previous_output(), "");
    }
}

#[test]
fn quit_is_echoed() {
    let s = store();
    let mut m = session();
    let mut input = String::new();
    let r = accept(&mut m, "Quit", &mut input, &s);
    assert_eq!(r.directive, Directive::Exit);
    assert_eq!(r.effect.printed(), Some("Quit".to_string()));
    assert_eq!(m.menu(), Menu::Initial);
}

#[test]
fn typed_text_is_shown_in_copy_flow() {
    let s = store();
    let mut m = session();
    let mut input = String::new();
    accept(&mut m, "Copy password", &mut input, &s);
    input = "other/entry".to_string();
    let r = m.react(Event::CustomInput, &mut input, &s).unwrap();
    assert_eq!(r.directive, Directive::Exit);
    assert_eq!(input, "other/entry");
    match r.effect {
        Effect::RunPass { command, flags, argument } => {
            assert_eq!(command, "show");
            assert_eq!(flags, "-c");
            assert_eq!(argument, "other/entry");
        }
        other => panic!("unexpected effect {:?}", other),
    }
}

#[test]
fn typed_text_elsewhere_is_echoed() {
    let s = store();
    let mut m = session();
    let mut input = "hello".to_string();
    let r = m.react(Event::CustomInput, &mut input, &s).unwrap();
    assert_eq!(r.directive, Directive::Exit);
    assert_eq!(r.effect.printed(), Some("hello".to_string()));
}

#[test]
fn cancel_exits_without_effect() {
    let s = store();
    let mut m = session();
    let mut input = "abc".to_string();
    let r = m.react(Event::Cancel, &mut input, &s).unwrap();
    assert_eq!(r.directive, Directive::Exit);
    assert!(is_nothing(&r.effect));
    assert_eq!(r.effect.printed(), None);
    assert_eq!(m.menu(), Menu::Initial);
    assert_eq!(input, "abc");
}

#[test]
fn other_events_go_to_the_host() {
    let s = store();
    let mut m = session();
    let mut input = String::new();
    for event in [
        Event::Complete,
        Event::DeleteEntry,
        Event::CustomCommand { number: 1, selected: None },
        Event::CustomCommand { number: 0, selected: Some(2) },
    ] {
        let r = m.react(event, &mut input, &s).unwrap();
        assert_eq!(r.directive, Directive::NativeMode);
        assert!(is_nothing(&r.effect));
        assert_eq!(m.menu(), Menu::Initial);
    }
}

#[test]
fn accept_beyond_the_list_is_an_error() {
    let s = store();
    let mut m = session();
    let mut input = "x".to_string();
    assert_eq!(
        m.react(Event::Accept { selected: 4 }, &mut input, &s).err(),
        Some(LogicError::IndexOutOfRange)
    );
    assert_eq!(m.menu(), Menu::Initial);
    assert_eq!(input, "x");
}

#[test]
fn completion_goes_one_level_at_a_time() {
    let s = store();
    let mut m = session();
    let mut input = String::new();
    m.init_menu(
        vec!["work/site1".to_string(), "work/site2".to_string()],
        Menu::CopyPass,
        &mut input,
    );
    input = "w".to_string();
    let complete = Event::CustomCommand { number: 0, selected: None };
    let r = m.react(complete, &mut input, &s).unwrap();
    assert_eq!(r.directive, Directive::Reload);
    assert_eq!(input, "work");
    assert_eq!(m.previous_output(), "work/");
    assert_eq!(entries_of(&m), vec!["..", "work/site1", "work/site2"]);
    let r = m.react(complete, &mut input, &s).unwrap();
    assert_eq!(r.directive, Directive::Reload);
    assert_eq!(input, "work/site1");
    assert_eq!(m.previous_output(), "work/site1/");
}

#[test]
fn completion_of_a_full_entry_accepts_it() {
    let s = store();
    let mut m = session();
    let mut input = String::new();
    accept(&mut m, "Copy password", &mut input, &s);
    input = "work/example".to_string();
    let r = m
        .react(Event::CustomCommand { number: 0, selected: Some(1) }, &mut input, &s)
        .unwrap();
    assert_eq!(r.directive, Directive::NativeMode);
    assert_eq!(input, "work/example");
    assert_eq!(m.menu(), Menu::CopyPass);
    assert_eq!(m.previous_output(), "");
}

#[test]
fn completion_of_empty_input_uses_the_highlighted_entry() {
    let s = store();
    let mut m = session();
    let mut input = String::new();
    accept(&mut m, "Copy password", &mut input, &s);
    let r = m
        .react(Event::CustomCommand { number: 0, selected: Some(3) }, &mut input, &s)
        .unwrap();
    assert_eq!(r.directive, Directive::Reload);
    assert_eq!(input, "top");
    assert_eq!(m.previous_output(), "top/");
    input = String::new();
    m.react(Event::CustomCommand { number: 0, selected: Some(0) }, &mut input, &s).unwrap();
    assert_eq!(input, "work");
    input = String::new();
    m.react(Event::CustomCommand { number: 0, selected: None }, &mut input, &s).unwrap();
    assert_eq!(input, "work");
}

#[test]
fn completion_clears_what_was_confirmed_when_input_is_empty() {
    let s = store();
    let mut m = session();
    let mut input = String::new();
    accept(&mut m, "Copy password", &mut input, &s);
    input = "w".to_string();
    m.react(Event::CustomCommand { number: 0, selected: None }, &mut input, &s).unwrap();
    assert_eq!(m.previous_output(), "work/");
    input = String::new();
    m.react(Event::Complete, &mut input, &s).unwrap();
    assert_eq!(m.previous_output(), "");
}

#[test]
fn completion_without_entries_is_an_error() {
    let s = store();
    let mut m = session();
    let mut input = String::new();
    accept(&mut m, "Add new password", &mut input, &s);
    accept(&mut m, "work", &mut input, &s);
    assert_eq!(m.entries(), 0);
    let complete = Event::CustomCommand { number: 0, selected: None };
    assert_eq!(m.react(complete, &mut input, &s).err(), Some(LogicError::IndexOutOfRange));
    input = "abc".to_string();
    assert_eq!(m.react(complete, &mut input, &s).err(), Some(LogicError::NoFallbackCandidate));
    assert_eq!(input, "abc");
    assert_eq!(m.menu(), Menu::AddPass(AddPass::ChooseFileName));
}

#[test]
fn completion_on_the_back_entry_alone_is_an_error() {
    let mut m = session();
    let mut input = String::new();
    let empty = StoreTree::new();
    accept(&mut m, "Copy password", &mut input, &empty);
    assert_eq!(entries_of(&m), vec![".."]);
    let complete = Event::CustomCommand { number: 0, selected: Some(0) };
    assert_eq!(m.react(complete, &mut input, &empty).err(), Some(LogicError::IndexOutOfRange));
    let beyond = Event::CustomCommand { number: 0, selected: Some(7) };
    assert_eq!(m.react(beyond, &mut input, &empty).err(), Some(LogicError::IndexOutOfRange));
}

#[test]
fn autocomplete_uses_the_session_list() {
    let mut m = session();
    let mut input = String::new();
    m.init_menu(
        vec!["work/site1".to_string(), "work/site2".to_string(), "wiki".to_string()],
        Menu::ChangePass(ChangePass::ChooseFile),
        &mut input,
    );
    assert_eq!(m.autocomplete("w"), Ok("work".to_string()));
    assert_eq!(m.autocomplete("wi"), Ok("wiki".to_string()));
    assert_eq!(m.autocomplete("nothing"), Ok("work".to_string()));
    assert_eq!(m.autocomplete(""), Ok("..".to_string()));
    m.init_menu(Vec::new(), Menu::AddPass(AddPass::ChooseFileName), &mut input);
    assert_eq!(m.autocomplete("w"), Err(LogicError::NoFallbackCandidate));
}

#[test]
fn files_are_shown_alike_with_and_without_root() {
    let s = store();
    let rooted = ClipKeeperModi::new("/srv/pw/".to_string());
    let plain = ClipKeeperModi::new(String::new());
    assert_eq!(rooted.list_file_paths(&s), plain.list_file_paths(&s));
    assert_eq!(plain.strip_prefix(s.list_files()), plain.list_file_paths(&s));
}

#[test]
fn shown_files_have_no_dotted_segment() {
    let mut s = store();
    let d = s.push("my.site".to_string(), None, true, false).unwrap();
    s.push(".secret.gpg".to_string(), Some(d), false, true).unwrap();
    s.push("login.gpg".to_string(), Some(d), false, true).unwrap();
    let shown = session().list_file_paths(&s);
    assert_eq!(shown, vec!["work/example", "work/site2", "top", "my.site/login"]);
    for path in shown {
        for segment in path.split('/') {
            assert!(!segment.starts_with('.'));
        }
    }
}
