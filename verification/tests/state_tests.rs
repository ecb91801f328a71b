use omado::state::{add_todo, delete_todo, input_to_add, keep_todo, projects_of, set_done, Filter, State};
use omado::todo::Todo;

fn todo(text: &str, done: bool, project: Option<&str>) -> Todo {
    Todo { text: text.to_string(), done, project: project.map(|p| p.to_string()) }
}

fn sample() -> Vec<Todo> {
    vec![
        todo("Fix login bug", false, Some("work")),
        todo("dishes", true, Some("home")),
        todo("call mom", false, None),
        todo("write report", true, Some("work")),
        todo("Buy MILK", false, Some("home")),
    ]
}

#[test]
fn everything_shown_without_filters() {
    let s = State::new(sample());
    assert_eq!(s.filtered_indices(), vec![0, 1, 2, 3, 4]);
}

#[test]
fn done_filters() {
    let mut s = State::new(sample());
    s.filter = Filter::Active;
    assert_eq!(s.filtered_indices(), vec![0, 2, 4]);
    s.filter = Filter::Done;
    assert_eq!(s.filtered_indices(), vec![1, 3]);
}

#[test]
fn project_filter() {
    let mut s = State::new(sample());
    s.project_filter = Some("home".to_string());
    assert_eq!(s.filtered_indices(), vec![1, 4]);
    s.filter = Filter::Active;
    assert_eq!(s.filtered_indices(), vec![4]);
    s.project_filter = Some("nothing".to_string());
    assert_eq!(s.filtered_indices(), Vec::<usize>::new());
}

#[test]
fn search_ignores_case_and_looks_at_projects() {
    let mut s = State::new(sample());
    s.search = "milk".to_string();
    assert_eq!(s.filtered_indices(), vec![4]);
    s.search = "BUG".to_string();
    assert_eq!(s.filtered_indices(), vec![0]);
    s.search = "WORK".to_string();
    assert_eq!(s.filtered_indices(), vec![0, 3]);
    s.search = "zzz".to_string();
    assert_eq!(s.filtered_indices(), Vec::<usize>::new());
}

#[test]
fn keep_todo_uses_given_lowercase_forms() {
    let t = todo("Anything", false, Some("p"));
    assert!(keep_todo(&t, Filter::All, &None, "", "whatever", "p"));
    assert!(keep_todo(&t, Filter::All, &None, "thin", "anything", "p"));
    assert!(!keep_todo(&t, Filter::All, &None, "Thin", "anything", "p"));
    assert!(keep_todo(&t, Filter::Active, &Some("p".to_string()), "p", "x", "p"));
    assert!(!keep_todo(&t, Filter::Done, &None, "", "x", "p"));
    assert!(!keep_todo(&t, Filter::All, &Some("q".to_string()), "", "x", "p"));
}

#[test]
fn projects_sorted_and_unique() {
    let s = State::new(sample());
    assert_eq!(s.projects(), vec!["home".to_string(), "work".to_string()]);
    let ts = vec![
        todo("a", false, Some("zeta")),
        todo("b", false, Some("Alpha")),
        todo("c", false, Some("alpha")),
        todo("d", false, Some("zeta")),
        todo("e", false, None),
        todo("f", true, Some("é")),
    ];
    assert_eq!(
        projects_of(&ts),
        vec!["Alpha".to_string(), "alpha".to_string(), "zeta".to_string(), "é".to_string()]
    );
    assert_eq!(projects_of(&[]), Vec::<String>::new());
}

#[test]
fn add_input_trims_and_skips_blank() {
    let mut s = State::new(vec![]);
    assert!(!s.add_input("   \t"));
    assert_eq!(s.todos.len(), 0);
    assert!(s.add_input("  work: plan sprint  "));
    assert_eq!(s.todos.len(), 1);
    assert_eq!(s.todos[0].text, "plan sprint");
    assert_eq!(s.todos[0].project.as_deref(), Some("work"));
    assert!(!s.todos[0].done);
}

#[test]
fn input_to_add_returns_trimmed_text() {
    assert_eq!(input_to_add("  hi  "), Some("hi".to_string()));
    assert_eq!(input_to_add(" \n "), None);
}

#[test]
fn add_todo_keeps_text_as_given() {
    let mut ts = vec![];
    add_todo(&mut ts, " spaced ");
    assert_eq!(ts[0].text, " spaced ");
    assert_eq!(ts[0].project, None);
}

#[test]
fn set_done_and_delete() {
    let mut s = State::new(sample());
    s.set_done(0, true);
    assert!(s.todos[0].done);
    assert_eq!(s.todos[0].text, "Fix login bug");
    s.set_done(99, true);
    assert_eq!(s.todos.len(), 5);
    s.delete(1);
    assert_eq!(s.todos.len(), 4);
    assert_eq!(s.todos[1].text, "call mom");
    s.delete(10);
    assert_eq!(s.todos.len(), 4);
    let mut ts = sample();
    set_done(&mut ts, 1, false);
    assert!(!ts[1].done);
    delete_todo(&mut ts, 0);
    assert_eq!(ts[0].text, "dishes");
}

#[test]
fn project_menu_entries() {
    let mut s = State::new(sample());
    assert_eq!(s.project_button_label(), "All projects");
    let choices = s.project_choices();
    assert_eq!(choices.len(), 3);
    assert_eq!(choices[0], ("All projects".to_string(), None));
    assert_eq!(choices[1], ("home".to_string(), Some("home".to_string())));
    assert_eq!(choices[2], ("work".to_string(), Some("work".to_string())));
    s.project_filter = Some("work".to_string());
    assert_eq!(s.project_button_label(), "work");
}

#[test]
fn visible_todos_pairs_index_and_todo() {
    let mut s = State::new(sample());
    s.filter = Filter::Done;
    let v = s.visible_todos();
    assert_eq!(v.len(), 2);
    assert_eq!(v[0].0, 1);
    assert_eq!(v[0].1.text, "dishes");
    assert_eq!(v[1].0, 3);
    assert_eq!(v[1].1.text, "write report");
}

#[test]
fn active_and_done_split_all() {
    let mut s = State::new(sample());
    s.search = "o".to_string();
    let all = s.filtered_indices();
    s.filter = Filter::Active;
    let active = s.filtered_indices();
    s.filter = Filter::Done;
    let done = s.filtered_indices();
    assert!(active.iter().all(|i| !done.contains(i)));
    let mut merged: Vec<usize> = active.iter().chain(done.iter()).copied().collect();
    merged.sort();
    assert_eq!(merged, all);
    assert_eq!(all, vec![0, 1, 2, 3, 4].into_iter().filter(|i| all.contains(i)).collect::<Vec<_>>());
}
