use omado::cli::{data_dir, parse_command, same_text, Command, DataDir};
use omado::ui::{main_key_action, project_tag_class, quick_add_key_closes, Key, KeyAction};

fn reference_tag(project: &str) -> &'static str {
    let h: usize = project.bytes().map(|b| b as usize).sum();
    ["tag-0", "tag-1", "tag-2", "tag-3", "tag-4"][h % 5]
}

#[test]
fn tag_class_by_byte_sum() {
    for p in ["", "a", "b", "c", "d", "e", "work", "home", "héllo", "中文", "😀"] {
        assert_eq!(project_tag_class(p), reference_tag(p), "{:?}", p);
    }
    assert_eq!(project_tag_class("a"), "tag-2");
    assert_eq!(project_tag_class(""), "tag-0");
}

#[test]
fn keys_in_main_window() {
    assert_eq!(main_key_action(true, Key::F), KeyAction::ToggleSearch);
    assert_eq!(main_key_action(false, Key::F), KeyAction::Pass);
    assert_eq!(main_key_action(true, Key::Escape), KeyAction::ClearAndCloseSearch);
    assert_eq!(main_key_action(false, Key::Escape), KeyAction::ClearAndCloseSearch);
    assert_eq!(main_key_action(true, Key::Other), KeyAction::Pass);
    assert!(quick_add_key_closes(Key::Escape));
    assert!(!quick_add_key_closes(Key::F));
}

fn args(xs: &[&str]) -> Vec<String> {
    xs.iter().map(|s| s.to_string()).collect()
}

#[test]
fn command_line_modes() {
    assert!(matches!(parse_command(&args(&["omado"])), Command::Gui));
    assert!(matches!(parse_command(&args(&["omado", "waybar"])), Command::Waybar));
    assert!(matches!(parse_command(&args(&["omado", "tray"])), Command::Tray));
    assert!(matches!(parse_command(&args(&["omado", "quick-add"])), Command::QuickAdd));
    assert!(matches!(parse_command(&args(&["omado", "help"])), Command::Help));
    assert!(matches!(parse_command(&args(&["omado", "--help"])), Command::Help));
    assert!(matches!(parse_command(&args(&["omado", "-h"])), Command::Help));
    assert!(matches!(parse_command(&args(&["omado", "add"])), Command::Gui));
    assert!(matches!(parse_command(&args(&["omado", "other"])), Command::Gui));
    assert!(matches!(parse_command(&args(&[])), Command::Gui));
}

#[test]
fn add_joins_words() {
    match parse_command(&args(&["omado", "add", "work:", "fix", "it"])) {
        Command::Add(t) => assert_eq!(t, "work: fix it"),
        _ => panic!("expected add"),
    }
    match parse_command(&args(&["omado", "add", "one"])) {
        Command::Add(t) => assert_eq!(t, "one"),
        _ => panic!("expected add"),
    }
}

#[test]
fn same_text_compares() {
    assert!(same_text("tray", "tray"));
    assert!(!same_text("tray", "tra"));
    assert!(!same_text("tray", "trax"));
}

#[test]
fn data_directory_choice() {
    match data_dir(Some("/x".to_string()), Some("/home/u".to_string())) {
        DataDir::Given(d) => assert_eq!(d, "/x"),
        _ => panic!(),
    }
    match data_dir(None, Some("/home/u".to_string())) {
        DataDir::UnderHome(h) => assert_eq!(h, "/home/u"),
        _ => panic!(),
    }
    match data_dir(None, None) {
        DataDir::UnderHome(h) => assert_eq!(h, "."),
        _ => panic!(),
    }
}
