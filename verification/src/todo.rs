//! Todos and their text form: one todo per line, `[x] ` or `[ ] ` for the
//! done mark, and an optional `project: ` in front of the task.

use vstd::prelude::*;
use crate::text::{
    is_ws, lemma_trim_fixed, lemma_trim_start_skip, lemma_trim_end_len, trim_start, find_char, trim, is_blank, unicode_alphanumeric, find, trim_range, copy_range, string_of,
    string_of_range, chars_of, is_alphanumeric, lemma_find_char_is, lemma_find_char_none, push_char, no_char,
    first_at, lemma_not_blank, lemma_find_char_first, lemma_trim_bounds,
};

verus! {

/// One todo item.
pub struct Todo {
    /// The task, without its project prefix.
    pub text: String,
    pub done: bool,
    /// The project the task belongs to, if its text named one.
    pub project: Option<String>,
}

/// The mathematical value of a `Todo`.
pub struct TodoView {
    pub text: Seq<char>,
    pub done: bool,
    pub project: Option<Seq<char>>,
}

pub open spec fn opt_view(o: Option<String>) -> Option<Seq<char>> {
    match o {
        Some(s) => Some(s@),
        None => None,
    }
}

impl View for Todo {
    type V = TodoView;

    open spec fn view(&self) -> TodoView {
        TodoView { text: self.text@, done: self.done, project: opt_view(self.project) }
    }
}

/// The values of a list of todos.
pub open spec fn todos_view(ts: Seq<Todo>) -> Seq<TodoView> {
    ts.map_values(|t: Todo| t@)
}

fn clone_opt_string(o: &Option<String>) -> (r: Option<String>)
    ensures
        opt_view(r) == opt_view(*o),
{
    match o {
        Some(s) => Some(s.clone()),
        None => None,
    }
}

impl Clone for Todo {
    fn clone(&self) -> (r: Self)
        ensures
            r@ == self@,
    {
        Todo { text: self.text.clone(), done: self.done, project: clone_opt_string(&self.project) }
    }
}

// ---------------------------------------------------------------------------
// Specification of the text form
// ---------------------------------------------------------------------------

/// `pre` is a prefix of `s`.
pub open spec fn starts_with(s: Seq<char>, pre: Seq<char>) -> bool {
    pre.len() <= s.len() && s.take(pre.len() as int) == pre
}

/// A character allowed in a project name: a letter, a digit, `_` or `-`
/// (none of which is white space or `:`).
pub open spec fn is_project_char(c: char) -> bool {
    !is_ws(c) && c != ':' && (unicode_alphanumeric(c) || c == '_' || c == '-')
}

/// A non-empty run of letters, digits, `_` and `-`.
pub open spec fn is_project_name(p: Seq<char>) -> bool {
    p.len() > 0 && forall|k: int| 0 <= k < p.len() ==> #[trigger] is_project_char(p[k])
}

/// The project named by a task text: what stands before its first `:`,
/// trimmed, if that is a project name.
pub open spec fn project_of(s: Seq<char>) -> Option<Seq<char>> {
    match find_char(s, ':') {
        None => None,
        Some(i) => {
            let cand = trim(s.take(i));
            if is_project_name(cand) {
                Some(cand)
            } else {
                None
            }
        },
    }
}

/// `project: `, the prefix that stands before a task of that project.
pub open spec fn project_prefix(p: Seq<char>) -> Seq<char> {
    p + seq![':', ' ']
}

/// The task text of `raw` once its project is known: `raw` without the
/// `project: ` prefix when it starts with one.
pub open spec fn task_of(raw: Seq<char>, project: Option<Seq<char>>) -> Seq<char> {
    match project {
        Some(p) => if starts_with(raw, project_prefix(p)) {
            raw.skip(project_prefix(p).len() as int)
        } else {
            raw
        },
        None => raw,
    }
}

/// The todo, not yet done, that a typed text stands for.
pub open spec fn todo_of_input(raw: Seq<char>) -> TodoView {
    TodoView { text: task_of(raw, project_of(raw)), done: false, project: project_of(raw) }
}

pub open spec fn done_mark() -> Seq<char> {
    seq!['[', 'x', ']', ' ']
}

pub open spec fn open_mark() -> Seq<char> {
    seq!['[', ' ', ']', ' ']
}

/// The todo that one line of the file stands for.
pub open spec fn todo_of_line(line: Seq<char>) -> TodoView {
    if starts_with(line, done_mark()) {
        let raw = line.skip(4);
        TodoView { text: task_of(raw, project_of(raw)), done: true, project: project_of(raw) }
    } else if starts_with(line, open_mark()) {
        todo_of_input(line.skip(4))
    } else {
        todo_of_input(line)
    }
}

/// `line` without one trailing carriage return.
pub open spec fn strip_cr(line: Seq<char>) -> Seq<char> {
    if line.len() > 0 && line.last() == '\r' {
        line.drop_last()
    } else {
        line
    }
}

/// The lines of `s`, as `str::lines` yields them: split at `\n`, a `\r`
/// before the `\n` removed, and no empty line after a final `\n`.
pub open spec fn lines_of(s: Seq<char>) -> Seq<Seq<char>>
    decreases s.len(),
{
    if s.len() == 0 {
        seq![]
    } else {
        match find_char(s, '\n') {
            None => seq![s],
            Some(i) => {
                proof {
                    lemma_find_char_first(s, '\n');
                }
                seq![strip_cr(s.take(i))] + lines_of(s.skip(i + 1))
            },
        }
    }
}

/// The todos of the non-blank lines among `lines`, in order.
pub open spec fn todos_of_lines(lines: Seq<Seq<char>>) -> Seq<TodoView>
    decreases lines.len(),
{
    if lines.len() == 0 {
        seq![]
    } else if is_blank(lines[0]) {
        todos_of_lines(lines.drop_first())
    } else {
        seq![todo_of_line(lines[0])] + todos_of_lines(lines.drop_first())
    }
}

/// The todos that the content of a todo file stands for.
pub open spec fn todos_of_text(s: Seq<char>) -> Seq<TodoView> {
    todos_of_lines(lines_of(s))
}

/// The line that stands for a todo, without its line end.
pub open spec fn line_of(t: TodoView) -> Seq<char> {
    (if t.done {
        done_mark()
    } else {
        open_mark()
    }) + match t.project {
        Some(p) => project_prefix(p) + t.text,
        None => t.text,
    }
}

/// The content of a todo file: each todo's line followed by `\n`.
pub open spec fn text_of_todos(ts: Seq<TodoView>) -> Seq<char>
    decreases ts.len(),
{
    if ts.len() == 0 {
        seq![]
    } else {
        line_of(ts[0]) + seq!['\n'] + text_of_todos(ts.drop_first())
    }
}

} // verus!

verus! {

// ---------------------------------------------------------------------------
// Reading and writing the text form
// ---------------------------------------------------------------------------

fn is_project_char_exec(c: char) -> (r: bool)
    ensures
        r == is_project_char(c),
{
    c != ' ' && (is_alphanumeric(c) || c == '_' || c == '-')
}

/// The project named by `raw`, as characters.
fn project_chars(raw: &[char]) -> (r: Option<Vec<char>>)
    ensures
        match r {
            Some(v) => project_of(raw@) == Some(v@),
            None => project_of(raw@) is None,
        },
{
    match find(raw, ':') {
        None => None,
        Some(i) => {
            let (lo, hi) = trim_range(raw, 0, i);
            assert(raw@.subrange(0, i as int) == raw@.take(i as int));
            let ghost cand = raw@.subrange(lo as int, hi as int);
            assert(trim(raw@.take(i as int)) == cand);
            if lo == hi {
                assert(!is_project_name(cand));
                return None;
            }
            let mut k = lo;
            while k < hi
                invariant
                    lo <= k <= hi <= raw@.len(),
                    cand == raw@.subrange(lo as int, hi as int),
                    find_char(raw@, ':') == Some(i as int),
                    trim(raw@.take(i as int)) == cand,
                    forall|j: int| 0 <= j < k - lo ==> #[trigger] is_project_char(cand[j]),
                decreases hi - k,
            {
                if !is_project_char_exec(raw[k]) {
                    assert(cand[k - lo] == raw@[k as int]);
                    assert(!is_project_char(cand[k - lo]));
                    assert(!is_project_name(cand));
                    return None;
                }
                k = k + 1;
            }
            Some(copy_range(raw, lo, hi))
        },
    }
}

/// Whether `s` starts with `pre`.
fn starts_with_chars(s: &[char], pre: &[char]) -> (r: bool)
    ensures
        r == starts_with(s@, pre@),
{
    let n = s.len();
    let m = pre.len();
    if m > n {
        return false;
    }
    for k in 0..m
        invariant
            n == s@.len(),
            m == pre@.len(),
            m <= n,
            forall|j: int| 0 <= j < k ==> s@[j] == pre@[j],
    {
        if s[k] != pre[k] {
            assert(s@.take(m as int)[k as int] != pre@[k as int]);
            return false;
        }
    }
    assert(s@.take(m as int) == pre@);
    true
}

/// `project: ` as characters.
fn prefix_chars(p: &Vec<char>) -> (r: Vec<char>)
    ensures
        r@ == project_prefix(p@),
{
    let mut r = p.clone();
    r.push(':');
    r.push(' ');
    r
}

/// The todo that the characters `raw` stand for, with the given done mark.
fn todo_from_raw(raw: &[char], done: bool) -> (t: Todo)
    ensures
        t@ == (TodoView { text: task_of(raw@, project_of(raw@)), done: done, project: project_of(raw@) }),
{
    match project_chars(raw) {
        None => Todo { text: string_of(raw), done, project: None },
        Some(p) => {
            let pre = prefix_chars(&p);
            let text = if starts_with_chars(raw, pre.as_slice()) {
                string_of_range(raw, pre.len(), raw.len())
            } else {
                string_of(raw)
            };
            proof {
                assert(raw@.subrange(pre@.len() as int, raw@.len() as int) == raw@.skip(pre@.len() as int));
            }
            Todo { text, done, project: Some(string_of(p.as_slice())) }
        },
    }
}

/// The project that a task text names: the part before its first `:`,
/// trimmed, when that part is a non-empty run of letters, digits, `_` and
/// `-`.
pub fn parse_project(text: &str) -> (r: Option<String>)
    ensures
        opt_view(r) == project_of(text@),
{
    let cs = chars_of(text);
    match project_chars(cs.as_slice()) {
        None => None,
        Some(p) => Some(string_of(p.as_slice())),
    }
}

/// The new, not yet done todo for a typed text: its project is the one the
/// text names, and its task is the text without the `project: ` prefix.
pub fn new_todo(text: &str) -> (t: Todo)
    ensures
        t@ == todo_of_input(text@),
{
    let cs = chars_of(text);
    todo_from_raw(cs.as_slice(), false)
}

/// The todo that one line of a todo file stands for.
fn todo_from_line(line: &[char]) -> (t: Todo)
    ensures
        t@ == todo_of_line(line@),
{
    let n = line.len();
    if n >= 4 && line[0] == '[' && line[1] == 'x' && line[2] == ']' && line[3] == ' ' {
        assert(line@.take(4) == done_mark());
        let raw = copy_range(line, 4, n);
        assert(raw@ == line@.skip(4));
        todo_from_raw(raw.as_slice(), true)
    } else if n >= 4 && line[0] == '[' && line[1] == ' ' && line[2] == ']' && line[3] == ' ' {
        assert(line@.take(4) == open_mark());
        assert(!starts_with(line@, done_mark())) by {
            assert(line@.take(4)[1] != done_mark()[1]);
        }
        let raw = copy_range(line, 4, n);
        assert(raw@ == line@.skip(4));
        todo_from_raw(raw.as_slice(), false)
    } else {
        assert(!starts_with(line@, done_mark())) by {
            if starts_with(line@, done_mark()) {
                assert(line@.take(4)[0] == '[' && line@.take(4)[1] == 'x');
                assert(line@.take(4)[2] == ']' && line@.take(4)[3] == ' ');
            }
        }
        assert(!starts_with(line@, open_mark())) by {
            if starts_with(line@, open_mark()) {
                assert(line@.take(4)[0] == '[' && line@.take(4)[1] == ' ');
                assert(line@.take(4)[2] == ']' && line@.take(4)[3] == ' ');
            }
        }
        todo_from_raw(line, false)
    }
}

} // verus!

verus! {

/// The position of the first `c` at or after `st`.
fn find_from(s: &[char], c: char, st: usize) -> (r: Option<usize>)
    requires
        st <= s@.len(),
    ensures
        match r {
            Some(j) => st <= j < s@.len() && find_char(s@.skip(st as int), c) == Some(j - st),
            None => find_char(s@.skip(st as int), c) is None,
        },
{
    let n = s.len();
    let ghost t = s@.skip(st as int);
    let mut j = st;
    while j < n
        invariant
            st <= j <= n,
            n == s@.len(),
            t == s@.skip(st as int),
            forall|k: int| 0 <= k < j - st ==> t[k] != c,
        decreases n - j,
    {
        if s[j] == c {
            proof {
                assert(t[j - st] == c);
                lemma_find_char_is(t, c, j - st);
            }
            return Some(j);
        }
        j = j + 1;
    }
    proof {
        lemma_find_char_none(t, c);
    }
    None
}

proof fn lemma_todos_of_lines_cons(l: Seq<char>, rest: Seq<Seq<char>>)
    ensures
        todos_of_lines(seq![l] + rest) == if is_blank(l) {
            todos_of_lines(rest)
        } else {
            seq![todo_of_line(l)] + todos_of_lines(rest)
        },
{
    let ls = seq![l] + rest;
    assert(ls[0] == l);
    assert(ls.drop_first() == rest);
}

proof fn lemma_todos_view_push(ts: Seq<Todo>, t: Todo)
    ensures
        todos_view(ts.push(t)) == todos_view(ts).push(t@),
{
    assert(todos_view(ts.push(t)) == todos_view(ts).push(t@));
}

/// The todos that the content of a todo file stands for: one per non-blank
/// line, in the order of the lines.
pub fn load_todos(content: &str) -> (r: Vec<Todo>)
    ensures
        todos_view(r@) == todos_of_text(content@),
{
    let cs = chars_of(content);
    let n = cs.len();
    let mut out: Vec<Todo> = Vec::new();
    let mut st: usize = 0;
    assert(cs@.skip(0) == cs@);
    assert(todos_view(out@) == Seq::<TodoView>::empty());
    while st < n
        invariant
            n == cs@.len(),
            st <= n,
            cs@ == content@,
            todos_of_text(content@) == todos_view(out@) + todos_of_lines(lines_of(cs@.skip(st as int))),
        decreases n - st,
    {
        let ghost rest = cs@.skip(st as int);
        let (hi, next) = match find_from(cs.as_slice(), '\n', st) {
            Some(j) => {
                let hi = if j > st && cs[j - 1] == '\r' {
                    j - 1
                } else {
                    j
                };
                proof {
                    assert(rest.take(j - st) == cs@.subrange(st as int, j as int));
                    assert(strip_cr(rest.take(j - st)) == cs@.subrange(st as int, hi as int));
                    assert(rest.skip(j - st + 1) == cs@.skip(j + 1));
                    assert(lines_of(rest) == seq![cs@.subrange(st as int, hi as int)] + lines_of(cs@.skip(j + 1)));
                }
                (hi, j + 1)
            },
            None => {
                proof {
                    assert(rest == cs@.subrange(st as int, n as int));
                    assert(cs@.skip(n as int) == Seq::<char>::empty());
                    assert(lines_of(cs@.skip(n as int)) == Seq::<Seq<char>>::empty());
                    assert(lines_of(rest) == seq![cs@.subrange(st as int, n as int)] + lines_of(cs@.skip(n as int)));
                }
                (n, n)
            },
        };
        let ghost line = cs@.subrange(st as int, hi as int);
        proof {
            lemma_todos_of_lines_cons(line, lines_of(cs@.skip(next as int)));
        }
        let (lo2, hi2) = trim_range(cs.as_slice(), st, hi);
        if lo2 < hi2 {
            let l = copy_range(cs.as_slice(), st, hi);
            let t = todo_from_line(l.as_slice());
            proof {
                lemma_todos_view_push(out@, t);
            }
            out.push(t);
        }
        st = next;
    }
    assert(cs@.skip(n as int) == Seq::<char>::empty());
    out
}

/// Appends the line that stands for `t`, without its line end.
fn push_line(s: &mut String, t: &Todo)
    ensures
        final(s)@ == old(s)@ + line_of(t@),
{
    push_char(s, '[');
    push_char(s, if t.done { 'x' } else { ' ' });
    push_char(s, ']');
    push_char(s, ' ');
    let ghost after_mark = s@;
    match &t.project {
        Some(p) => {
            s.append(p.as_str());
            push_char(s, ':');
            push_char(s, ' ');
        },
        None => {},
    }
    s.append(t.text.as_str());
    proof {
        let mark = if t.done { done_mark() } else { open_mark() };
        assert(after_mark == old(s)@ + mark);
        match opt_view(t.project) {
            Some(p) => {
                assert(s@ == old(s)@ + (mark + (project_prefix(p) + t.text@)));
            },
            None => {
                assert(s@ == old(s)@ + (mark + t.text@));
            },
        }
    }
}

/// The content of a todo file for `todos`: one line per todo, `[x] ` or
/// `[ ] ` then `project: ` when it has one, then its task, each line ended
/// by `\n`.
pub fn save_todos(todos: &[Todo]) -> (r: String)
    ensures
        r@ == text_of_todos(todos_view(todos@)),
{
    let mut s = String::new();
    let n = todos.len();
    let ghost all = todos_view(todos@);
    assert(all.skip(0) == all);
    for i in 0..n
        invariant
            n == todos@.len(),
            all == todos_view(todos@),
            text_of_todos(all) == s@ + text_of_todos(all.skip(i as int)),
    {
        let ghost before = s@;
        push_line(&mut s, &todos[i]);
        push_char(&mut s, '\n');
        proof {
            let rest = all.skip(i as int);
            assert(rest[0] == todos@[i as int]@);
            assert(rest.drop_first() == all.skip(i + 1));
            assert(text_of_todos(rest) == line_of(rest[0]) + seq!['\n'] + text_of_todos(all.skip(i + 1)));
            assert(s@ == before + line_of(rest[0]) + seq!['\n']);
        }
    }
    assert(all.skip(n as int) == Seq::<TodoView>::empty());
    s
}

} // verus!

verus! {

// ---------------------------------------------------------------------------
// Laws of the text form
// ---------------------------------------------------------------------------

/// `s` ends with a carriage return.
pub open spec fn ends_with_cr(s: Seq<char>) -> bool {
    s.len() > 0 && s.last() == '\r'
}

/// A project name has no white space (so trimming keeps it), no `:` and
/// no line break.
pub proof fn lemma_project_name_clean(p: Seq<char>)
    requires
        is_project_name(p),
    ensures
        trim(p) == p,
        no_char(p, ':'),
        no_char(p, '\n'),
        forall|k: int| 0 <= k < p.len() ==> !is_ws(#[trigger] p[k]),
{
    assert forall|k: int| 0 <= k < p.len() implies !is_ws(#[trigger] p[k]) && p[k] != ':' by {
        assert(is_project_char(p[k]));
    }
    assert(!is_ws(p[0]));
    assert(!is_ws(p.last()));
    lemma_trim_fixed(p);
    assert forall|k: int| 0 <= k < p.len() implies p[k] != '\n' by {
        assert(!is_ws(p[k]));
    }
}

/// A todo that one line can hold: its task has no line break and does not
/// end with `\r`, its project is a project name (letters, digits, `_` and
/// `-`), and a todo without a project has a task that names none.
pub open spec fn well_formed(t: TodoView) -> bool {
    &&& no_char(t.text, '\n')
    &&& !ends_with_cr(t.text)
    &&& match t.project {
        Some(p) => is_project_name(p),
        None => project_of(t.text) is None,
    }
}

proof fn lemma_line_of_props(t: TodoView)
    requires
        well_formed(t),
    ensures
        line_of(t).len() >= 4,
        line_of(t)[0] == '[',
        no_char(line_of(t), '\n'),
        !ends_with_cr(line_of(t)),
        !is_blank(line_of(t)),
{
    let mark = if t.done { done_mark() } else { open_mark() };
    let line = line_of(t);
    match t.project {
        Some(p) => {
            lemma_project_name_clean(p);
            let body = project_prefix(p) + t.text;
            assert(line == mark + body);
            assert forall|k: int| 0 <= k < body.len() implies body[k] != '\n' by {
                if k < p.len() {
                    assert(body[k] == p[k]);
                } else if k >= p.len() + 2 {
                    assert(body[k] == t.text[k - p.len() - 2]);
                }
            }
            assert forall|k: int| 0 <= k < line.len() implies line[k] != '\n' by {
                if k >= 4 {
                    assert(line[k] == body[k - 4]);
                }
            }
            if t.text.len() > 0 {
                assert(line.last() == t.text.last());
            } else {
                assert(line.last() == ' ');
            }
        },
        None => {
            assert(line == mark + t.text);
            assert forall|k: int| 0 <= k < line.len() implies line[k] != '\n' by {
                if k >= 4 {
                    assert(line[k] == t.text[k - 4]);
                }
            }
            if t.text.len() > 0 {
                assert(line.last() == t.text.last());
            } else {
                assert(line.last() == ' ');
            }
        },
    }
    lemma_not_blank(line);
}

/// The body of a well-formed todo's line gives back its project and task.
proof fn lemma_body_round_trip(t: TodoView)
    requires
        well_formed(t),
    ensures
        ({
            let body = match t.project {
                Some(p) => project_prefix(p) + t.text,
                None => t.text,
            };
            project_of(body) == t.project && task_of(body, t.project) == t.text
        }),
{
    match t.project {
        Some(p) => {
            lemma_project_name_clean(p);
            let body = project_prefix(p) + t.text;
            let n = p.len() as int;
            assert(body[n] == ':');
            assert forall|k: int| 0 <= k < n implies body[k] != ':' by {
                assert(body[k] == p[k]);
            }
            assert(first_at(body, ':', n));
            lemma_find_char_is(body, ':', n);
            assert(body.take(n) == p);
            assert(starts_with(body, project_prefix(p))) by {
                assert(body.take(n + 2) == project_prefix(p));
            }
            assert(body.skip(n + 2) == t.text);
        },
        None => {},
    }
}

/// Reading back the line of a well-formed todo gives the todo.
pub proof fn lemma_line_round_trip(t: TodoView)
    requires
        well_formed(t),
    ensures
        todo_of_line(line_of(t)) == t,
{
    let line = line_of(t);
    let body = match t.project {
        Some(p) => project_prefix(p) + t.text,
        None => t.text,
    };
    lemma_body_round_trip(t);
    if t.done {
        assert(line == done_mark() + body);
        assert(line.take(4) == done_mark());
        assert(line.skip(4) == body);
    } else {
        assert(line == open_mark() + body);
        assert(line.take(4) == open_mark());
        assert(line.take(4)[1] != done_mark()[1]);
        assert(!starts_with(line, done_mark()));
        assert(line.skip(4) == body);
    }
}

/// A line without line breaks and not ending in `\r`, followed by `\n`,
/// is the first line of the text.
proof fn lemma_lines_of_line_then(l: Seq<char>, r: Seq<char>)
    requires
        no_char(l, '\n'),
        !ends_with_cr(l),
    ensures
        lines_of(l + seq!['\n'] + r) == seq![l] + lines_of(r),
{
    let s = l + seq!['\n'] + r;
    assert(s[l.len() as int] == '\n');
    assert forall|k: int| 0 <= k < l.len() implies s[k] != '\n' by {
        assert(s[k] == l[k]);
    }
    assert(first_at(s, '\n', l.len() as int));
    lemma_find_char_is(s, '\n', l.len() as int);
    assert(s.take(l.len() as int) == l);
    assert(s.skip(l.len() as int + 1) == r);
    assert(strip_cr(l) == l);
}

/// Saving todos and reading the file back gives the same todos, for todos
/// that a line can hold.
#[verifier::spinoff_prover]
pub proof fn lemma_save_load(ts: Seq<TodoView>)
    requires
        forall|i: int| 0 <= i < ts.len() ==> well_formed(#[trigger] ts[i]),
    ensures
        todos_of_text(text_of_todos(ts)) == ts,
    decreases ts.len(),
{
    if ts.len() == 0 {
        assert(text_of_todos(ts).len() == 0);
        assert(lines_of(text_of_todos(ts)) == Seq::<Seq<char>>::empty());
        assert(todos_of_text(text_of_todos(ts)) == ts);
    } else {
        let t = ts[0];
        let rest = ts.drop_first();
        let l = line_of(t);
        let r = text_of_todos(rest);
        assert(text_of_todos(ts) == l + seq!['\n'] + r);
        lemma_line_of_props(t);
        lemma_lines_of_line_then(l, r);
        lemma_todos_of_lines_cons(l, lines_of(r));
        lemma_line_round_trip(t);
        assert forall|i: int| 0 <= i < rest.len() implies well_formed(#[trigger] rest[i]) by {
            assert(rest[i] == ts[i + 1]);
        }
        lemma_save_load(rest);
        assert(seq![t] + rest == ts);
    }
}

/// The todo read from a text without line breaks and not ending in `\r`,
/// with either done mark, can be held by a line.
proof fn lemma_task_well_formed(raw: Seq<char>, done: bool)
    requires
        no_char(raw, '\n'),
        !ends_with_cr(raw),
    ensures
        well_formed(TodoView { text: task_of(raw, project_of(raw)), done: done, project: project_of(raw) }),
{
    lemma_find_char_first(raw, ':');
    match find_char(raw, ':') {
        None => {},
        Some(i) => {
            let pre = raw.take(i);
            let cand = trim(pre);
            if is_project_name(cand) {
                let m = project_prefix(cand).len() as int;
                if starts_with(raw, project_prefix(cand)) {
                    let text = raw.skip(m);
                    assert forall|k: int| 0 <= k < text.len() implies text[k] != '\n' by {
                        assert(text[k] == raw[k + m]);
                    }
                    if text.len() > 0 {
                        assert(text.last() == raw.last());
                    }
                }
            }
        },
    }
}

/// The todo for a typed text without line breaks and not ending in `\r`
/// can be held by a line.
pub proof fn lemma_input_well_formed(raw: Seq<char>)
    requires
        no_char(raw, '\n'),
        !ends_with_cr(raw),
    ensures
        well_formed(todo_of_input(raw)),
{
    lemma_task_well_formed(raw, false);
}

/// The todo read from a line can be held by a line, unless the line ends
/// with `\r`.
pub proof fn lemma_line_well_formed(line: Seq<char>)
    requires
        no_char(line, '\n'),
        !ends_with_cr(line),
    ensures
        well_formed(todo_of_line(line)),
{
    if starts_with(line, done_mark()) || starts_with(line, open_mark()) {
        let raw = line.skip(4);
        assert forall|k: int| 0 <= k < raw.len() implies raw[k] != '\n' by {
            assert(raw[k] == line[k + 4]);
        }
        if raw.len() > 0 {
            assert(raw.last() == line.last());
        }
        lemma_task_well_formed(raw, starts_with(line, done_mark()));
    } else {
        lemma_task_well_formed(line, false);
    }
}

/// No line of a text holds a line break.
pub proof fn lemma_lines_no_newline(s: Seq<char>)
    ensures
        forall|i: int| 0 <= i < lines_of(s).len() ==> no_char(#[trigger] lines_of(s)[i], '\n'),
    decreases s.len(),
{
    if s.len() > 0 {
        lemma_find_char_first(s, '\n');
        match find_char(s, '\n') {
            None => {},
            Some(i) => {
                let first = strip_cr(s.take(i));
                let rest = s.skip(i + 1);
                lemma_lines_no_newline(rest);
                assert forall|k: int| 0 <= k < first.len() implies first[k] != '\n' by {
                    assert(first[k] == s[k]);
                }
                let ls = seq![first] + lines_of(rest);
                assert forall|j: int| 0 <= j < ls.len() implies no_char(#[trigger] ls[j], '\n') by {
                    if j > 0 {
                        assert(ls[j] == lines_of(rest)[j - 1]);
                    }
                }
            },
        }
    }
}

proof fn lemma_todos_of_lines_well_formed(ls: Seq<Seq<char>>)
    requires
        forall|i: int| 0 <= i < ls.len() ==> no_char(#[trigger] ls[i], '\n'),
        forall|i: int| 0 <= i < ls.len() ==> !is_blank(#[trigger] ls[i]) ==> !ends_with_cr(ls[i]),
    ensures
        forall|j: int|
            0 <= j < todos_of_lines(ls).len() ==> well_formed(#[trigger] todos_of_lines(ls)[j]),
    decreases ls.len(),
{
    if ls.len() > 0 {
        let rest = ls.drop_first();
        assert forall|i: int| 0 <= i < rest.len() implies no_char(#[trigger] rest[i], '\n') by {
            assert(rest[i] == ls[i + 1]);
        }
        assert forall|i: int| 0 <= i < rest.len() && !is_blank(#[trigger] rest[i]) implies !ends_with_cr(rest[i]) by {
            assert(rest[i] == ls[i + 1]);
        }
        lemma_todos_of_lines_well_formed(rest);
        if !is_blank(ls[0]) {
            lemma_line_well_formed(ls[0]);
            let r = seq![todo_of_line(ls[0])] + todos_of_lines(rest);
            assert forall|j: int| 0 <= j < r.len() implies well_formed(#[trigger] r[j]) by {
                if j > 0 {
                    assert(r[j] == todos_of_lines(rest)[j - 1]);
                }
            }
        }
    }
}

/// Saving what was read and reading it again gives what was read, for
/// files whose non-blank lines do not end with a stray `\r`.
pub proof fn lemma_reload_stable(s: Seq<char>)
    requires
        forall|i: int|
            0 <= i < lines_of(s).len() ==> !is_blank(#[trigger] lines_of(s)[i]) ==> !ends_with_cr(
                lines_of(s)[i],
            ),
    ensures
        todos_of_text(text_of_todos(todos_of_text(s))) == todos_of_text(s),
{
    lemma_lines_no_newline(s);
    lemma_todos_of_lines_well_formed(lines_of(s));
    lemma_save_load(todos_of_text(s));
}

/// A todo added from a typed text (without line breaks, not ending in
/// `\r`) to todos that a file can hold is still there, unchanged, after
/// saving and reading the file back.
pub proof fn lemma_added_todo_kept(ts: Seq<TodoView>, raw: Seq<char>)
    requires
        forall|i: int| 0 <= i < ts.len() ==> well_formed(#[trigger] ts[i]),
        no_char(raw, '\n'),
        !ends_with_cr(raw),
    ensures
        todos_of_text(text_of_todos(ts.push(todo_of_input(raw)))) == ts.push(todo_of_input(raw)),
{
    lemma_input_well_formed(raw);
    let all = ts.push(todo_of_input(raw));
    assert forall|i: int| 0 <= i < all.len() implies well_formed(#[trigger] all[i]) by {
        if i < ts.len() {
            assert(all[i] == ts[i]);
        }
    }
    lemma_save_load(all);
}

} // verus!

verus! {

/// What `parse_project` finds is a non-empty project name: no white space
/// and no `:` in it, the first thing in the text after its leading white
/// space, and found again in front of any task as `name: task`.
pub proof fn lemma_parsed_project(text: Seq<char>, rest: Seq<char>)
    ensures
        match project_of(text) {
            Some(c) => {
                &&& c.len() > 0
                &&& no_char(c, ':')
                &&& forall|k: int| 0 <= k < c.len() ==> !is_ws(#[trigger] c[k])
                &&& starts_with(trim_start(text), c)
                &&& project_of(project_prefix(c) + rest) == Some(c)
            },
            None => true,
        },
{
    lemma_find_char_first(text, ':');
    match project_of(text) {
        None => {},
        Some(c) => {
            let i = find_char(text, ':')->0;
            let pre = text.take(i);
            lemma_project_name_clean(c);
            // Where the name starts in the prefix and in the whole text.
            let lo1 = lemma_trim_start_skip(pre);
            let lo2 = lemma_trim_start_skip(text);
            assert(lo1 < pre.len()) by {
                if lo1 == pre.len() {
                    assert(trim_start(pre).len() == 0);
                }
            }
            assert(lo1 == lo2) by {
                if lo2 < lo1 {
                    assert(is_ws(pre[lo2]));
                    assert(pre[lo2] == text[lo2]);
                } else if lo1 < lo2 {
                    assert(is_ws(text[lo1]));
                    assert(pre[lo1] == text[lo1]);
                }
            }
            let hi = lemma_trim_end_len(trim_start(pre));
            assert(c == pre.skip(lo1).take(hi));
            assert(trim_start(text).take(c.len() as int) == c) by {
                assert forall|k: int| 0 <= k < c.len() implies trim_start(text)[k] == c[k] by {
                    assert(c[k] == pre[lo1 + k]);
                    assert(pre[lo1 + k] == text[lo1 + k]);
                }
            }
            // The name in front of a task.
            let body = project_prefix(c) + rest;
            let n = c.len() as int;
            assert(body[n] == ':');
            assert forall|k: int| 0 <= k < n implies body[k] != ':' by {
                assert(body[k] == c[k]);
            }
            assert(first_at(body, ':', n));
            lemma_find_char_is(body, ':', n);
            assert(body.take(n) == c);
        },
    }
}

} // verus!


verus! {

/// A name made of letters, digits, `_` and `-` (which, as std has it, are
/// never white space nor `:`), followed by `: `, is read as the project of
/// what is typed or stored, and what follows as the task.
pub proof fn lemma_named_project_read(p: Seq<char>, rest: Seq<char>)
    requires
        p.len() > 0,
        forall|k: int|
            0 <= k < p.len() ==> (unicode_alphanumeric(#[trigger] p[k]) || p[k] == '_' || p[k] == '-'),
        forall|k: int| 0 <= k < p.len() ==> !is_ws(#[trigger] p[k]) && p[k] != ':',
    ensures
        project_of(p + seq![':', ' '] + rest) == Some(p),
        todo_of_input(p + seq![':', ' '] + rest) == (TodoView { text: rest, done: false, project: Some(p) }),
        todo_of_line(seq!['[', ' ', ']', ' '] + p + seq![':', ' '] + rest) == (TodoView {
            text: rest,
            done: false,
            project: Some(p),
        }),
        todo_of_line(seq!['[', 'x', ']', ' '] + p + seq![':', ' '] + rest) == (TodoView {
            text: rest,
            done: true,
            project: Some(p),
        }),
{
    assert forall|k: int| 0 <= k < p.len() implies #[trigger] is_project_char(p[k]) by {}
    assert(is_project_name(p));
    lemma_project_name_clean(p);
    let body = p + seq![':', ' '] + rest;
    let n = p.len() as int;
    assert(body[n] == ':');
    assert forall|k: int| 0 <= k < n implies body[k] != ':' by {
        assert(body[k] == p[k]);
    }
    assert(first_at(body, ':', n));
    lemma_find_char_is(body, ':', n);
    assert(body.take(n) == p);
    assert(project_prefix(p) == p + seq![':', ' ']);
    assert(body.take(n + 2) == project_prefix(p));
    assert(body.skip(n + 2) == rest);
    let open_line = seq!['[', ' ', ']', ' '] + p + seq![':', ' '] + rest;
    assert(open_line.take(4) == open_mark());
    assert(open_line.take(4)[1] != done_mark()[1]);
    assert(open_line.skip(4) == body);
    let done_line = seq!['[', 'x', ']', ' '] + p + seq![':', ' '] + rest;
    assert(done_line.take(4) == done_mark());
    assert(done_line.skip(4) == body);
}

} // verus!
