use omado::todo::{load_todos, new_todo, parse_project, save_todos, Todo};

fn todo(text: &str, done: bool, project: Option<&str>) -> Todo {
    Todo { text: text.to_string(), done, project: project.map(|p| p.to_string()) }
}

fn same(a: &Todo, b: &Todo) -> bool {
    a.text == b.text && a.done == b.done && a.project == b.project
}

#[test]
fn project_before_first_colon() {
    assert_eq!(parse_project("work: fix bug"), Some("work".to_string()));
    assert_eq!(parse_project("  work  : fix"), Some("work".to_string()));
    assert_eq!(parse_project("x:y:z"), Some("x".to_string()));
    assert_eq!(parse_project("a_b-c9: x"), Some("a_b-c9".to_string()));
    assert_eq!(parse_project("héllo: x"), Some("héllo".to_string()));
}

#[test]
fn no_project_without_a_name() {
    assert_eq!(parse_project("no colon here"), None);
    assert_eq!(parse_project(": empty name"), None);
    assert_eq!(parse_project("   : blank name"), None);
    assert_eq!(parse_project("two words: x"), None);
    assert_eq!(parse_project("see http://x"), None);
    assert_eq!(parse_project("a.b: x"), None);
    assert_eq!(parse_project(""), None);
}

#[test]
fn new_todo_strips_project_prefix() {
    let t = new_todo("work: fix bug");
    assert!(same(&t, &todo("fix bug", false, Some("work"))));
    let t = new_todo("work:fix");
    assert!(same(&t, &todo("work:fix", false, Some("work"))));
    let t = new_todo("  work: x");
    assert!(same(&t, &todo("  work: x", false, Some("work"))));
    let t = new_todo("buy milk");
    assert!(same(&t, &todo("buy milk", false, None)));
    let t = new_todo("work: ");
    assert!(same(&t, &todo("", false, Some("work"))));
}

#[test]
fn load_reads_marks_projects_and_skips_blank_lines() {
    let content = "[x] work: ship it\n[ ] home: dishes\nplain task\n\n   \n[ ] no project\r\n[x]missing space\n";
    let ts = load_todos(content);
    assert_eq!(ts.len(), 5);
    assert!(same(&ts[0], &todo("ship it", true, Some("work"))));
    assert!(same(&ts[1], &todo("dishes", false, Some("home"))));
    assert!(same(&ts[2], &todo("plain task", false, None)));
    assert!(same(&ts[3], &todo("no project", false, None)));
    assert!(same(&ts[4], &todo("[x]missing space", false, None)));
}

#[test]
fn load_of_empty_and_unterminated_content() {
    assert_eq!(load_todos("").len(), 0);
    assert_eq!(load_todos("\n\n").len(), 0);
    let ts = load_todos("[ ] last line");
    assert_eq!(ts.len(), 1);
    assert!(same(&ts[0], &todo("last line", false, None)));
    let ts = load_todos("a\rb\nc\r");
    assert_eq!(ts.len(), 2);
    assert_eq!(ts[0].text, "a\rb");
    assert_eq!(ts[1].text, "c\r");
}

#[test]
fn save_writes_one_line_per_todo() {
    let ts = vec![
        todo("ship it", true, Some("work")),
        todo("dishes", false, None),
    ];
    assert_eq!(save_todos(&ts), "[x] work: ship it\n[ ] dishes\n");
    assert_eq!(save_todos(&[]), "");
}

#[test]
fn save_then_load_gives_the_same_todos() {
    let ts = vec![
        todo("ship it", true, Some("work")),
        todo("", false, Some("home")),
        todo("", true, None),
        todo("plain", false, None),
        todo("work:fix", false, Some("work")),
        todo("  odd: spacing", true, Some("odd")),
    ];
    let back = load_todos(&save_todos(&ts));
    assert_eq!(back.len(), ts.len());
    for (a, b) in back.iter().zip(ts.iter()) {
        assert!(same(a, b));
    }
}

#[test]
fn reload_after_save_is_stable() {
    let content = "[x] work: a\n b: c\nx:y\n[ ] p:q\n\n[x]  sp: z\r\n";
    let first = load_todos(content);
    let second = load_todos(&save_todos(&first));
    assert_eq!(first.len(), second.len());
    for (a, b) in first.iter().zip(second.iter()) {
        assert!(same(a, b));
    }
}

#[test]
fn added_todo_survives_save_and_load() {
    let mut ts = load_todos("[ ] home: dishes\n");
    ts.push(new_todo("work: merge PR"));
    let back = load_todos(&save_todos(&ts));
    assert_eq!(back.len(), 2);
    assert!(same(&back[1], &todo("merge PR", false, Some("work"))));
}

#[test]
fn clone_keeps_fields() {
    let t = todo("x", true, Some("p"));
    assert!(same(&t.clone(), &t));
}

#[test]
fn white_space_and_colon_are_not_alphanumeric() {
    for u in 0u32..=0x10FFFF {
        if let Some(c) = char::from_u32(u) {
            if c.is_whitespace() || c == ':' {
                assert!(!c.is_alphanumeric(), "U+{:04X}", u);
            }
        }
    }
}

#[test]
fn parsed_project_is_found_again_before_any_task() {
    for text in ["  work : a", "x:y", "\tab-c_d: e", "héllo:"] {
        let p = parse_project(text).unwrap();
        assert!(!p.is_empty() && !p.contains(':') && !p.chars().any(char::is_whitespace));
        assert!(text.trim_start().starts_with(p.as_str()));
        for rest in ["", "task", ": more", " spaced"] {
            assert_eq!(parse_project(&format!("{}: {}", p, rest)), Some(p.clone()));
        }
    }
}

#[test]
fn round_trip_with_any_project_name() {
    let ts = vec![
        todo("t", false, Some("a_b-c9")),
        todo("", true, Some("中文")),
        todo("x: y", false, Some("ünï")),
    ];
    let back = load_todos(&save_todos(&ts));
    assert_eq!(back.len(), ts.len());
    for (a, b) in back.iter().zip(ts.iter()) {
        assert!(same(a, b));
    }
}
