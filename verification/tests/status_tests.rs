use omado::status::{
    active_todos, has_active, tray_menu, tray_title, tray_tooltip_text, tray_tooltip_title,
    waybar_output,
};
use omado::todo::Todo;

fn todo(text: &str, done: bool, project: Option<&str>) -> Todo {
    Todo { text: text.to_string(), done, project: project.map(|p| p.to_string()) }
}

#[test]
fn waybar_when_nothing_active() {
    let ts = vec![todo("done", true, None)];
    assert_eq!(
        waybar_output(&ts),
        r#"{"text": "", "tooltip": "No active todos", "class": "empty"}"#
    );
    assert_eq!(
        waybar_output(&[]),
        r#"{"text": "", "tooltip": "No active todos", "class": "empty"}"#
    );
}

#[test]
fn waybar_lists_active_todos() {
    let ts = vec![
        todo("ship \"it\"", false, Some("work")),
        todo("old", true, None),
        todo("dishes", false, None),
    ];
    assert_eq!(
        waybar_output(&ts),
        "{\"text\": \"󰄲 2\", \"tooltip\": \"● work: ship 'it'\\n● dishes\", \"class\": \"active\"}"
    );
}

#[test]
fn waybar_shows_at_most_ten() {
    let ts: Vec<Todo> = (0..12).map(|i| todo(&format!("t{}", i), false, None)).collect();
    let lines: Vec<String> = (0..10).map(|i| format!("● t{}", i)).collect();
    let tip = format!("{}\n…and 2 more", lines.join("\n"));
    let expected = format!(
        r#"{{"text": "󰄲 12", "tooltip": "{}", "class": "active"}}"#,
        tip.replace('"', "'").replace('\n', "\\n")
    );
    assert_eq!(waybar_output(&ts), expected);
}

#[test]
fn active_list_and_flag() {
    let ts = vec![todo("a", true, None), todo("b", false, None), todo("c", false, None)];
    let a = active_todos(&ts);
    assert_eq!(a.len(), 2);
    assert_eq!(a[0].text, "b");
    assert!(has_active(&ts));
    assert!(!has_active(&[todo("x", true, None)]));
}

#[test]
fn tray_titles_and_tooltip() {
    let none = vec![todo("x", true, None)];
    assert_eq!(tray_title(&none), "omado");
    assert_eq!(tray_tooltip_title(&none), "omado — 0 active");
    assert_eq!(tray_tooltip_text(&none), "No active todos");
    let ts = vec![todo("a", false, Some("p")), todo("b", false, None)];
    assert_eq!(tray_title(&ts), "omado (2)");
    assert_eq!(tray_tooltip_title(&ts), "omado — 2 active");
    assert_eq!(tray_tooltip_text(&ts), "● p: a\n● b");
}

#[test]
fn tray_tooltip_text_has_no_overflow_note() {
    let ts: Vec<Todo> = (0..11).map(|i| todo(&format!("t{}", i), false, None)).collect();
    let lines: Vec<String> = (0..10).map(|i| format!("● t{}", i)).collect();
    assert_eq!(tray_tooltip_text(&ts), lines.join("\n"));
}

#[test]
fn tray_menu_entries() {
    let none = tray_menu(&[todo("x", true, None)]);
    assert_eq!(none.len(), 1);
    assert_eq!(none[0].label, "No active todos");
    assert_eq!(none[0].todo_index, None);

    let ts = vec![todo("a", true, None), todo("b", false, Some("p")), todo("c", false, None)];
    let m = tray_menu(&ts);
    assert_eq!(m.len(), 2);
    assert_eq!(m[0].label, "[p]  b");
    assert_eq!(m[0].todo_index, Some(1));
    assert_eq!(m[1].label, "c");
    assert_eq!(m[1].todo_index, Some(2));
}

#[test]
fn tray_menu_shows_at_most_fifteen() {
    let mut ts: Vec<Todo> = vec![todo("done", true, None)];
    ts.extend((0..17).map(|i| todo(&format!("t{}", i), false, None)));
    let m = tray_menu(&ts);
    assert_eq!(m.len(), 16);
    assert_eq!(m[0].todo_index, Some(1));
    assert_eq!(m[14].label, "t14");
    assert_eq!(m[14].todo_index, Some(15));
    assert_eq!(m[15].label, "…and 2 more");
    assert_eq!(m[15].todo_index, None);
}

#[test]
fn marking_done_lowers_the_count() {
    let mut ts = vec![todo("a", false, None), todo("b", false, None), todo("c", true, None)];
    assert_eq!(tray_title(&ts), "omado (2)");
    omado::state::set_done(&mut ts, 0, true);
    assert_eq!(tray_title(&ts), "omado (1)");
    assert_eq!(tray_tooltip_title(&ts), "omado — 1 active");
}

#[test]
fn waybar_escapes_backslashes_and_control_characters() {
    let ts = vec![todo("dir\\x", false, None)];
    assert_eq!(
        waybar_output(&ts),
        "{\"text\": \"󰄲 1\", \"tooltip\": \"● dir\\\\x\", \"class\": \"active\"}"
    );
    let ts = vec![todo("a\tb\rc\u{1}d\u{1f}e\u{7f}", false, None)];
    assert_eq!(
        waybar_output(&ts),
        "{\"text\": \"󰄲 1\", \"tooltip\": \"● a\\tb\\rc\\u0001d\\u001Fe\u{7f}\", \"class\": \"active\"}"
    );
}

#[test]
fn waybar_output_is_one_json_object_for_any_text() {
    // Every character that may not stand raw in a JSON string is escaped:
    // nothing below U+0020 and no lone backslash or double quote remains.
    let mut text = String::new();
    for u in 0u32..0x80 {
        text.push(char::from_u32(u).unwrap());
    }
    let out = waybar_output(&[todo(&text, false, Some("p"))]);
    let tip_start = out.find("\"tooltip\": \"").unwrap() + "\"tooltip\": \"".len();
    let tip_end = out.rfind("\", \"class\"").unwrap();
    let tip = &out[tip_start..tip_end];
    assert!(tip.chars().all(|c| (c as u32) >= 0x20));
    assert!(!tip.contains('"'));
    let mut chars = tip.chars();
    while let Some(c) = chars.next() {
        if c == '\\' {
            let e = chars.next().unwrap();
            assert!(matches!(e, '\\' | 'n' | 't' | 'r' | 'u'), "bad escape \\{}", e);
        }
    }
}
