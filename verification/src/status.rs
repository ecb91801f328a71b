//! What the status bar module and the tray icon show: counts, tooltips
//! and the tray menu, computed from the todos.

use vstd::prelude::*;
use crate::text::{chars_of, decimal, push_char, push_decimal};
use crate::todo::{Todo, TodoView, todos_view, project_prefix};
use crate::state::with_done;

verus! {

/// The todos that are not done, in order.
pub open spec fn active_of(ts: Seq<TodoView>) -> Seq<TodoView>
    decreases ts.len(),
{
    if ts.len() == 0 {
        seq![]
    } else if !ts.last().done {
        active_of(ts.drop_last()).push(ts.last())
    } else {
        active_of(ts.drop_last())
    }
}

/// The indices of the todos that are not done, in order.
pub open spec fn active_indices(ts: Seq<TodoView>) -> Seq<int>
    decreases ts.len(),
{
    if ts.len() == 0 {
        seq![]
    } else if !ts.last().done {
        active_indices(ts.drop_last()).push(ts.len() - 1)
    } else {
        active_indices(ts.drop_last())
    }
}

/// How a todo reads in a list: `project: task`, or the task alone.
pub open spec fn todo_title(t: TodoView) -> Seq<char> {
    match t.project {
        Some(p) => project_prefix(p) + t.text,
        None => t.text,
    }
}

/// A todo as a bulleted line: `● project: task` or `● task`.
pub open spec fn bullet_line(t: TodoView) -> Seq<char> {
    "● "@ + todo_title(t)
}

/// The bulleted lines of the first (at most) `limit` todos.
pub open spec fn bullet_lines(ts: Seq<TodoView>, limit: nat) -> Seq<Seq<char>> {
    let m = if ts.len() < limit { ts.len() } else { limit };
    Seq::new(m, |k: int| bullet_line(ts[k]))
}

/// The lines joined by `\n`.
pub open spec fn join_lines(ls: Seq<Seq<char>>) -> Seq<char>
    decreases ls.len(),
{
    if ls.len() == 0 {
        seq![]
    } else if ls.len() == 1 {
        ls[0]
    } else {
        join_lines(ls.drop_last()) + seq!['\n'] + ls.last()
    }
}

/// `c` as it stands in the bar module's JSON string: `"` becomes `'`, a
/// backslash is doubled, a line break, tab or carriage return becomes
/// `\n`, `\t` or `\r`, and any other control character below U+0020
/// becomes `\u00XX`.
pub open spec fn escape_char(c: char) -> Seq<char> {
    if c == '"' {
        seq!['\'']
    } else if c == '\\' {
        seq!['\\', '\\']
    } else if c == '\n' {
        seq!['\\', 'n']
    } else if c == '\t' {
        seq!['\\', 't']
    } else if c == '\r' {
        seq!['\\', 'r']
    } else if (c as u32) < 0x20 {
        seq!['\\', 'u', '0', '0', hex_digit((c as u32 / 16) as nat), hex_digit((c as u32 % 16) as nat)]
    } else {
        seq![c]
    }
}

/// The upper-case hexadecimal digit for `d < 16`.
pub open spec fn hex_digit(d: nat) -> char {
    if d < 10 {
        ((48 + d) as u32) as char
    } else {
        ((55 + d) as u32) as char
    }
}

fn hex(d: u32) -> (c: char)
    requires
        d < 16,
    ensures
        c == hex_digit(d as nat),
{
    let b: u8 = if d < 10 {
        48u8 + (d as u8)
    } else {
        55u8 + (d as u8)
    };
    b as char
}

/// Appends `c` as it stands in the bar module's JSON.
fn push_escaped_char(out: &mut String, c: char)
    ensures
        final(out)@ == old(out)@ + escape_char(c),
{
    let u = c as u32;
    if c == '"' {
        push_char(out, '\'');
    } else if c == '\\' {
        push_char(out, '\\');
        push_char(out, '\\');
    } else if c == '\n' {
        push_char(out, '\\');
        push_char(out, 'n');
    } else if c == '\t' {
        push_char(out, '\\');
        push_char(out, 't');
    } else if c == '\r' {
        push_char(out, '\\');
        push_char(out, 'r');
    } else if u < 0x20 {
        push_char(out, '\\');
        push_char(out, 'u');
        push_char(out, '0');
        push_char(out, '0');
        push_char(out, hex(u / 16));
        push_char(out, hex(u % 16));
    } else {
        push_char(out, c);
    }
}

/// Every character of `s` escaped.
pub open spec fn escape(s: Seq<char>) -> Seq<char>
    decreases s.len(),
{
    if s.len() == 0 {
        seq![]
    } else {
        escape(s.drop_last()) + escape_char(s.last())
    }
}

/// The tooltip of the bar module: the first ten active todos, one per
/// line, and how many more there are.
pub open spec fn bar_tooltip(active: Seq<TodoView>) -> Seq<char> {
    let lines = join_lines(bullet_lines(active, 10));
    if active.len() > 10 {
        lines + "\n…and "@ + decimal((active.len() - 10) as nat) + " more"@
    } else {
        lines
    }
}

/// The JSON line that the bar module prints.
pub open spec fn bar_json(ts: Seq<TodoView>) -> Seq<char> {
    let active = active_of(ts);
    if active.len() == 0 {
        "{\"text\": \"\", \"tooltip\": \"No active todos\", \"class\": \"empty\"}"@
    } else {
        "{\"text\": \"󰄲 "@ + decimal(active.len()) + "\", \"tooltip\": \""@ + escape(
            bar_tooltip(active),
        ) + "\", \"class\": \"active\"}"@
    }
}

/// The title of the tray icon.
pub open spec fn tray_title_of(ts: Seq<TodoView>) -> Seq<char> {
    let n = active_of(ts).len();
    if n == 0 {
        "omado"@
    } else {
        "omado ("@ + decimal(n) + ")"@
    }
}

/// The title of the tray tooltip.
pub open spec fn tray_tooltip_title_of(ts: Seq<TodoView>) -> Seq<char> {
    "omado — "@ + decimal(active_of(ts).len()) + " active"@
}

/// The text of the tray tooltip.
pub open spec fn tray_tooltip_text_of(ts: Seq<TodoView>) -> Seq<char> {
    let active = active_of(ts);
    if active.len() == 0 {
        "No active todos"@
    } else {
        join_lines(bullet_lines(active, 10))
    }
}

/// How a todo reads in the tray menu: `[project]  task`, or the task.
pub open spec fn menu_label(t: TodoView) -> Seq<char> {
    match t.project {
        Some(p) => "["@ + p + "]  "@ + t.text,
        None => t.text,
    }
}

proof fn lemma_active_step(ts: Seq<TodoView>, i: int)
    requires
        0 <= i < ts.len(),
    ensures
        active_of(ts.take(i + 1)) == if !ts[i].done {
            active_of(ts.take(i)).push(ts[i])
        } else {
            active_of(ts.take(i))
        },
        active_indices(ts.take(i + 1)) == if !ts[i].done {
            active_indices(ts.take(i)).push(i)
        } else {
            active_indices(ts.take(i))
        },
{
    assert(ts.take(i + 1).drop_last() == ts.take(i));
    assert(ts.take(i + 1).last() == ts[i]);
}

proof fn lemma_active_indices_bounds(ts: Seq<TodoView>)
    ensures
        active_indices(ts).len() == active_of(ts).len(),
        active_indices(ts).len() <= ts.len(),
        forall|k: int|
            0 <= k < active_indices(ts).len() ==> 0 <= #[trigger] active_indices(ts)[k] < ts.len()
                && ts[active_indices(ts)[k]] == active_of(ts)[k],
    decreases ts.len(),
{
    if ts.len() > 0 {
        let rest = ts.drop_last();
        lemma_active_indices_bounds(rest);
        assert forall|k: int| 0 <= k < active_indices(rest).len() implies ts[active_indices(rest)[k]]
            == rest[active_indices(rest)[k]] by {}
    }
}

/// The todos that are not done, in order.
pub fn active_todos(todos: &[Todo]) -> (r: Vec<Todo>)
    ensures
        todos_view(r@) == active_of(todos_view(todos@)),
{
    let n = todos.len();
    let ghost tv = todos_view(todos@);
    let mut r: Vec<Todo> = Vec::new();
    for i in 0..n
        invariant
            n == todos@.len(),
            tv == todos_view(todos@),
            todos_view(r@) == active_of(tv.take(i as int)),
    {
        proof {
            lemma_active_step(tv, i as int);
        }
        if !todos[i].done {
            let t = todos[i].clone();
            let ghost before = r@;
            r.push(t);
            assert(todos_view(r@) == todos_view(before).push(tv[i as int]));
        }
    }
    assert(tv.take(n as int) == tv);
    r
}

/// Appends how `t` reads in a list.
fn push_title(s: &mut String, t: &Todo)
    ensures
        final(s)@ == old(s)@ + todo_title(t@),
{
    match &t.project {
        Some(p) => {
            s.append(p.as_str());
            push_char(s, ':');
            push_char(s, ' ');
        },
        None => {},
    }
    s.append(t.text.as_str());
    proof {
        match t@.project {
            Some(p) => {
                assert(s@ == old(s)@ + (project_prefix(p) + t.text@));
            },
            None => {},
        }
    }
}

/// The bulleted lines of the first (at most) `limit` todos, joined by
/// `\n`.
fn joined_bullets(active: &[Todo], limit: usize) -> (r: String)
    ensures
        r@ == join_lines(bullet_lines(todos_view(active@), limit as nat)),
{
    let n = active.len();
    let m = if n < limit {
        n
    } else {
        limit
    };
    let ghost tv = todos_view(active@);
    let mut s = String::new();
    for k in 0..m
        invariant
            n == active@.len(),
            m <= n,
            m == (if n < limit { n } else { limit }),
            tv == todos_view(active@),
            s@ == join_lines(Seq::new(k as nat, |j: int| bullet_line(tv[j]))),
    {
        let ghost before = s@;
        if k > 0 {
            push_char(&mut s, '\n');
        }
        s.append("● ");
        push_title(&mut s, &active[k]);
        proof {
            let ls = Seq::new((k + 1) as nat, |j: int| bullet_line(tv[j]));
            assert(ls.drop_last() == Seq::new(k as nat, |j: int| bullet_line(tv[j])));
            assert(ls.last() == bullet_line(tv[k as int]));
            if k == 0 {
                assert(s@ == bullet_line(tv[0]));
            } else {
                assert(s@ == before + seq!['\n'] + bullet_line(tv[k as int]));
            }
        }
    }
    assert(bullet_lines(tv, limit as nat) == Seq::new(m as nat, |j: int| bullet_line(tv[j])));
    s
}

/// Appends `s` with every character escaped.
fn push_escaped(out: &mut String, s: &str)
    ensures
        final(out)@ == old(out)@ + escape(s@),
{
    let cs = chars_of(s);
    let n = cs.len();
    for i in 0..n
        invariant
            n == cs@.len(),
            out@ == old(out)@ + escape(cs@.take(i as int)),
    {
        let ghost before = out@;
        let c = cs[i];
        push_escaped_char(out, c);
        proof {
            let t = cs@.take(i + 1);
            assert(t.drop_last() == cs@.take(i as int));
            assert(t.last() == c);
            assert(out@ == before + escape_char(c));
        }
    }
    assert(cs@.take(n as int) == cs@);
}

/// The JSON line that the bar module prints: an empty text and class
/// `empty` when every todo is done, else the number of active todos, a
/// tooltip with the first ten of them and class `active`.
pub fn waybar_output(todos: &[Todo]) -> (r: String)
    ensures
        r@ == bar_json(todos_view(todos@)),
{
    let active = active_todos(todos);
    let n = active.len();
    if n == 0 {
        return "{\"text\": \"\", \"tooltip\": \"No active todos\", \"class\": \"empty\"}".to_owned();
    }
    let mut tip = joined_bullets(active.as_slice(), 10);
    if n > 10 {
        tip.append("\n…and ");
        push_decimal(&mut tip, n - 10);
        tip.append(" more");
    }
    let mut s = String::new();
    s.append("{\"text\": \"󰄲 ");
    push_decimal(&mut s, n);
    s.append("\", \"tooltip\": \"");
    push_escaped(&mut s, tip.as_str());
    s.append("\", \"class\": \"active\"}");
    s
}

/// Whether any todo is not done: the tray shows itself active then.
pub fn has_active(todos: &[Todo]) -> (r: bool)
    ensures
        r == (active_of(todos_view(todos@)).len() > 0),
{
    let active = active_todos(todos);
    active.len() > 0
}

/// The title of the tray icon: `omado`, with the number of active todos
/// in brackets when there are any.
pub fn tray_title(todos: &[Todo]) -> (r: String)
    ensures
        r@ == tray_title_of(todos_view(todos@)),
{
    let n = active_todos(todos).len();
    if n == 0 {
        "omado".to_owned()
    } else {
        let mut s = "omado (".to_owned();
        push_decimal(&mut s, n);
        s.append(")");
        s
    }
}

/// The title of the tray tooltip: how many todos are active.
pub fn tray_tooltip_title(todos: &[Todo]) -> (r: String)
    ensures
        r@ == tray_tooltip_title_of(todos_view(todos@)),
{
    let n = active_todos(todos).len();
    let mut s = "omado — ".to_owned();
    push_decimal(&mut s, n);
    s.append(" active");
    s
}

/// The text of the tray tooltip: the first ten active todos, one per
/// line, or a note that there are none.
pub fn tray_tooltip_text(todos: &[Todo]) -> (r: String)
    ensures
        r@ == tray_tooltip_text_of(todos_view(todos@)),
{
    let active = active_todos(todos);
    if active.len() == 0 {
        "No active todos".to_owned()
    } else {
        joined_bullets(active.as_slice(), 10)
    }
}

/// One entry of the tray menu: a todo, which marks it done when chosen, or
/// a note that cannot be chosen.
pub struct MenuEntry {
    pub label: String,
    /// The index of the todo that choosing the entry marks done; `None`
    /// for a note.
    pub todo_index: Option<usize>,
}

/// The label of the note below the menu's todos, for `extra` more of them.
pub open spec fn more_label(extra: nat) -> Seq<char> {
    "…and "@ + decimal(extra) + " more"@
}

/// The tray menu's entries above its fixed ones: the first fifteen active
/// todos, then a note for the rest; a note alone when none is active.
pub open spec fn is_tray_menu(ts: Seq<TodoView>, r: Seq<(Seq<char>, Option<int>)>) -> bool {
    let idx = active_indices(ts);
    let shown = if idx.len() < 15 { idx.len() } else { 15 };
    if idx.len() == 0 {
        r == seq![("No active todos"@, None::<int>)]
    } else {
        &&& r.len() == shown + (if idx.len() > 15 { 1int } else { 0 })
        &&& forall|k: int| 0 <= k < shown ==> #[trigger] r[k] == (menu_label(ts[idx[k]]), Some(idx[k]))
        &&& idx.len() > 15 ==> r[15] == (more_label((idx.len() - 15) as nat), None::<int>)
    }
}

/// The values of menu entries.
pub open spec fn entries_view(v: Seq<MenuEntry>) -> Seq<(Seq<char>, Option<int>)> {
    v.map_values(
        |e: MenuEntry|
            (
                e.label@,
                match e.todo_index {
                    Some(i) => Some(i as int),
                    None => None,
                },
            ),
    )
}

fn push_menu_label(s: &mut String, t: &Todo)
    ensures
        final(s)@ == old(s)@ + menu_label(t@),
{
    match &t.project {
        Some(p) => {
            s.append("[");
            s.append(p.as_str());
            s.append("]  ");
        },
        None => {},
    }
    s.append(t.text.as_str());
    proof {
        match t@.project {
            Some(p) => {
                assert(s@ == old(s)@ + ("["@ + p + "]  "@ + t.text@));
            },
            None => {},
        }
    }
}

/// The tray menu's entries for the todos, above its fixed entries.
pub fn tray_menu(todos: &[Todo]) -> (r: Vec<MenuEntry>)
    ensures
        is_tray_menu(todos_view(todos@), entries_view(r@)),
{
    let n = todos.len();
    let ghost tv = todos_view(todos@);
    let mut r: Vec<MenuEntry> = Vec::new();
    let mut count: usize = 0;
    for i in 0..n
        invariant
            n == todos@.len(),
            tv == todos_view(todos@),
            count == active_indices(tv.take(i as int)).len(),
            count <= i,
            r@.len() == if count < 15 { count as int } else { 15 },
            forall|k: int| 0 <= k < r@.len() ==> #[trigger] entries_view(r@)[k] == (menu_label(tv[active_indices(tv.take(i as int))[k]]), Some(active_indices(tv.take(i as int))[k])),
    {
        proof {
            lemma_active_step(tv, i as int);
            lemma_active_indices_bounds(tv.take(i as int));
        }
        if !todos[i].done {
            if count < 15 {
                let mut label = String::new();
                push_menu_label(&mut label, &todos[i]);
                let ghost before = r@;
                r.push(MenuEntry { label, todo_index: Some(i) });
                proof {
                    let idx = active_indices(tv.take(i + 1));
                    assert(idx[count as int] == i);
                    assert forall|k: int| 0 <= k < r@.len() implies #[trigger] entries_view(r@)[k] == (menu_label(tv[idx[k]]), Some(idx[k])) by {
                        if k < before.len() {
                            assert(entries_view(r@)[k] == entries_view(before)[k]);
                            assert(idx[k] == active_indices(tv.take(i as int))[k]);
                        }
                    }
                }
            }
            count = count + 1;
        }
    }
    assert(tv.take(n as int) == tv);
    if count == 0 {
        let e = MenuEntry { label: "No active todos".to_owned(), todo_index: None };
        r.push(e);
        assert(entries_view(r@) == seq![("No active todos"@, None::<int>)]);
    } else if count > 15 {
        let mut label = "…and ".to_owned();
        push_decimal(&mut label, count - 15);
        label.append(" more");
        let ghost before = r@;
        r.push(MenuEntry { label, todo_index: None });
        assert(entries_view(r@)[15] == (more_label((count - 15) as nat), None::<int>));
        assert forall|k: int| 0 <= k < 15 implies #[trigger] entries_view(r@)[k] == entries_view(before)[k] by {}
    }
    r
}

} // verus!

verus! {

/// Marking an active todo done lowers the number of active todos by one.
pub proof fn lemma_mark_done_count(ts: Seq<TodoView>, i: int)
    requires
        0 <= i < ts.len(),
        !ts[i].done,
    ensures
        active_of(ts.update(i, with_done(ts[i], true))).len() + 1 == active_of(ts).len(),
    decreases ts.len(),
{
    let us = ts.update(i, with_done(ts[i], true));
    if i == ts.len() - 1 {
        assert(us.drop_last() == ts.drop_last());
    } else {
        assert(us.drop_last() == ts.drop_last().update(i, with_done(ts[i], true)));
        assert(ts.drop_last()[i] == ts[i]);
        lemma_mark_done_count(ts.drop_last(), i);
    }
}

} // verus!

verus! {

/// A done todo put anywhere in the list leaves the active todos as they
/// were.
pub proof fn lemma_active_ignores_done(ts: Seq<TodoView>, i: int, d: TodoView)
    requires
        0 <= i <= ts.len(),
        d.done,
    ensures
        active_of(ts.insert(i, d)) == active_of(ts),
    decreases ts.len(),
{
    let us = ts.insert(i, d);
    if i == ts.len() {
        assert(us.drop_last() == ts);
        assert(us.last() == d);
    } else {
        assert(us.last() == ts.last());
        assert(us.drop_last() == ts.drop_last().insert(i, d));
        lemma_active_ignores_done(ts.drop_last(), i, d);
    }
}

/// Done todos change nothing that the bar module and the tray show in
/// text: putting a done todo anywhere in the list leaves the bar module's
/// JSON line, the tray's title, its tooltip title and its tooltip text as
/// they were.
pub proof fn lemma_done_todos_not_shown(ts: Seq<TodoView>, i: int, d: TodoView)
    requires
        0 <= i <= ts.len(),
        d.done,
    ensures
        bar_json(ts.insert(i, d)) == bar_json(ts),
        tray_title_of(ts.insert(i, d)) == tray_title_of(ts),
        tray_tooltip_title_of(ts.insert(i, d)) == tray_tooltip_title_of(ts),
        tray_tooltip_text_of(ts.insert(i, d)) == tray_tooltip_text_of(ts),
{
    lemma_active_ignores_done(ts, i, d);
}

/// The bar module's tooltip names the first ten active todos and notes how
/// many active ones are left out: when every todo is active, there is a
/// note exactly when there are more than ten, and it counts those past the
/// tenth.
pub proof fn lemma_bar_note_counts_active(ts: Seq<TodoView>)
    requires
        forall|k: int| 0 <= k < ts.len() ==> !(#[trigger] ts[k]).done,
    ensures
        active_of(ts) == ts,
        bar_tooltip(ts) == if ts.len() > 10 {
            join_lines(Seq::new(10, |k: int| "● "@ + todo_title(ts[k]))) + "\n…and "@ + decimal(
                (ts.len() - 10) as nat,
            ) + " more"@
        } else {
            join_lines(Seq::new(ts.len(), |k: int| "● "@ + todo_title(ts[k])))
        },
    decreases ts.len(),
{
    if ts.len() > 0 {
        let r = ts.drop_last();
        assert forall|k: int| 0 <= k < r.len() implies !(#[trigger] r[k]).done by {
            assert(r[k] == ts[k]);
        }
        lemma_bar_note_counts_active(r);
        assert(ts == r.push(ts.last()));
    }
    if ts.len() > 10 {
        assert(bullet_lines(ts, 10) == Seq::new(10, |k: int| "● "@ + todo_title(ts[k])));
    } else {
        assert(bullet_lines(ts, 10) == Seq::new(ts.len(), |k: int| "● "@ + todo_title(ts[k])));
    }
}

} // verus!
