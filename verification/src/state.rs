//! The state of the todo window: the todos, the chosen filters and the
//! search text, and what each control does to them.

use vstd::prelude::*;
use crate::text::{
    chars_of, contains, contains_seq, lex_lt, less_than, string_of, to_lowercase,
    unicode_lowercase, lemma_lex_total, lemma_lex_transitive, trim,
    trim_bounds, is_blank, string_of_range,
};
use crate::todo::{Todo, TodoView, opt_view, todos_view, todo_of_input, new_todo};

verus! {

/// Which todos the window lists by their done mark.
#[derive(Clone, Copy, Debug, PartialEq, Eq, Structural)]
pub enum Filter {
    All,
    Active,
    Done,
}

/// `t` passes the done-mark filter.
pub open spec fn passes_filter(t: TodoView, filter: Filter) -> bool {
    match filter {
        Filter::All => true,
        Filter::Active => !t.done,
        Filter::Done => t.done,
    }
}

/// `t` passes the project filter (`None` lets every todo pass).
pub open spec fn passes_project(t: TodoView, project_filter: Option<Seq<char>>) -> bool {
    match project_filter {
        None => true,
        Some(p) => t.project == Some(p),
    }
}

/// The project name of `t` for searching, empty when it has none.
pub open spec fn project_text(project: Option<Seq<char>>) -> Seq<char> {
    match project {
        Some(p) => p,
        None => Seq::empty(),
    }
}

/// The search matches, given the lowercase forms of the task, of the
/// project name and of the search text.
pub open spec fn search_hit(text_lower: Seq<char>, project_lower: Seq<char>, query_lower: Seq<char>) -> bool {
    ||| query_lower.len() == 0
    ||| contains_seq(text_lower, query_lower)
    ||| contains_seq(project_lower, query_lower)
}

/// The window lists `t` under the given filters and search text.
pub open spec fn shown(t: TodoView, filter: Filter, project_filter: Option<Seq<char>>, search: Seq<char>) -> bool {
    &&& passes_filter(t, filter)
    &&& passes_project(t, project_filter)
    &&& search_hit(
        unicode_lowercase(t.text),
        unicode_lowercase(project_text(t.project)),
        unicode_lowercase(search),
    )
}

/// Whether the window lists `todo`, given the lowercase forms of its task,
/// of its project name and of the search text.
pub fn keep_todo(
    todo: &Todo,
    filter: Filter,
    project_filter: &Option<String>,
    query_lower: &str,
    text_lower: &str,
    project_lower: &str,
) -> (r: bool)
    ensures
        r == (passes_filter(todo@, filter) && passes_project(todo@, opt_view(*project_filter))
            && search_hit(text_lower@, project_lower@, query_lower@)),
{
    let by_filter = match filter {
        Filter::All => true,
        Filter::Active => !todo.done,
        Filter::Done => todo.done,
    };
    let by_project = match project_filter {
        None => true,
        Some(p) => match &todo.project {
            Some(tp) => *tp == *p,
            None => false,
        },
    };
    let q = chars_of(query_lower);
    let tl = chars_of(text_lower);
    let pl = chars_of(project_lower);
    let by_search = q.len() == 0 || contains(tl.as_slice(), q.as_slice()) || contains(
        pl.as_slice(),
        q.as_slice(),
    );
    assert(by_filter == passes_filter(todo@, filter));
    assert(by_project == passes_project(todo@, opt_view(*project_filter)));
    assert(by_search == search_hit(text_lower@, project_lower@, query_lower@));
    by_filter && by_project && by_search
}

/// `v` lists the elements of a set of indices in increasing order.
pub open spec fn increasing(v: Seq<usize>) -> bool {
    forall|k: int, l: int| 0 <= k < l < v.len() ==> v[k] < v[l]
}

/// `v` is strictly increasing in the order of strings.
pub open spec fn strictly_sorted(v: Seq<Seq<char>>) -> bool {
    forall|k: int, l: int| 0 <= k < l < v.len() ==> lex_lt(v[k], v[l])
}

/// `p` is the project of one of `ts`.
pub open spec fn has_project(ts: Seq<TodoView>, p: Seq<char>) -> bool {
    exists|i: int| 0 <= i < ts.len() && ts[i].project == Some(p)
}

/// The values of a list of strings.
pub open spec fn strings_view(v: Seq<String>) -> Seq<Seq<char>> {
    v.map_values(|s: String| s@)
}

/// The value of each string in a list of character vectors.
pub open spec fn chars_view(v: Seq<Vec<char>>) -> Seq<Seq<char>> {
    v.map_values(|s: Vec<char>| s@)
}

/// Whether two character sequences are equal.
fn same_chars(a: &[char], b: &[char]) -> (r: bool)
    ensures
        r == (a@ == b@),
{
    if a.len() != b.len() {
        return false;
    }
    let n = a.len();
    for k in 0..n
        invariant
            n == a@.len(),
            n == b@.len(),
            forall|j: int| 0 <= j < k ==> a@[j] == b@[j],
    {
        if a[k] != b[k] {
            return false;
        }
    }
    assert(a@ == b@);
    true
}

/// The project names used by `todos`, each once, in the order of strings.
#[verifier::spinoff_prover]
pub fn projects_of(todos: &[Todo]) -> (r: Vec<String>)
    ensures
        strictly_sorted(strings_view(r@)),
        forall|p: Seq<char>| strings_view(r@).contains(p) <==> has_project(todos_view(todos@), p),
{
    let n = todos.len();
    let ghost tv = todos_view(todos@);
    let mut sorted: Vec<Vec<char>> = Vec::new();
    for i in 0..n
        invariant
            n == todos@.len(),
            tv == todos_view(todos@),
            strictly_sorted(chars_view(sorted@)),
            forall|p: Seq<char>|
                chars_view(sorted@).contains(p) <==> has_project(tv.take(i as int), p),
    {
        let ghost before = chars_view(sorted@);
        assert(tv.take(i + 1) == tv.take(i as int).push(tv[i as int]));
        match &todos[i].project {
            None => {
                proof {
                    lemma_has_project_push_none(tv.take(i as int), tv[i as int]);
                    assert forall|q: Seq<char>| #[trigger] chars_view(sorted@).contains(q) <==> has_project(tv.take(i + 1), q) by {
                        assert(chars_view(sorted@) == before);
                    }
                }
            },
            Some(p) => {
                let pc = chars_of(p.as_str());
                let ghost pcv = pc@;
                assert(tv[i as int] == todos@[i as int]@);
                assert(tv[i as int].project == Some(pcv));
                let len = sorted.len();
                let mut pos: usize = 0;
                while pos < len && less_than(sorted[pos].as_slice(), pc.as_slice())
                    invariant
                        len == sorted@.len(),
                        pos <= len,
                        pc@ == pcv,
                        forall|j: int| 0 <= j < pos ==> lex_lt(#[trigger] sorted@[j]@, pcv),
                    decreases len - pos,
                {
                    pos = pos + 1;
                }
                let found = pos < len && same_chars(sorted[pos].as_slice(), pc.as_slice());
                if !found {
                    proof {
                        if pos < len {
                            lemma_lex_total(sorted@[pos as int]@, pcv);
                        }
                    }
                    sorted.insert(pos, pc);
                    proof {
                        assert(sorted@[pos as int]@ == pcv);
                        assert(chars_view(sorted@) == before.insert(pos as int, pcv));
                        lemma_sorted_insert(before, pos as int, pcv);
                        lemma_insert_contains(before, pos as int, pcv);
                    }
                } else {
                    assert(before[pos as int] == pcv);
                    assert(before.contains(pcv));
                    assert(chars_view(sorted@) == before);
                }
                proof {
                    lemma_has_project_push(tv.take(i as int), tv[i as int], pcv);
                    assert forall|q: Seq<char>| #[trigger] chars_view(sorted@).contains(q) <==> has_project(tv.take(i + 1), q) by {
                        if found {
                            assert(chars_view(sorted@) == before);
                            if q == pcv {
                                assert(before.contains(q));
                            }
                        } else {
                            assert(chars_view(sorted@) == before.insert(pos as int, pcv));
                        }
                        assert(chars_view(sorted@).contains(q) == (before.contains(q) || q == pcv));
                        assert(has_project(tv.take(i as int).push(tv[i as int]), q) <==> (has_project(tv.take(i as int), q) || q == pcv));
                    }
                }
            },
        }
    }
    assert(tv.take(n as int) == tv);
    let mut out: Vec<String> = Vec::new();
    let m = sorted.len();
    for k in 0..m
        invariant
            m == sorted@.len(),
            strings_view(out@) == chars_view(sorted@).take(k as int),
    {
        let s = string_of(sorted[k].as_slice());
        let ghost prev = out@;
        out.push(s);
        proof {
            assert(out@ == prev.push(s));
            assert(strings_view(out@) == strings_view(prev).push(s@));
            assert(s@ == chars_view(sorted@)[k as int]);
            assert(chars_view(sorted@).take(k + 1) == chars_view(sorted@).take(k as int).push(chars_view(sorted@)[k as int]));
        }
    }
    assert(chars_view(sorted@).take(m as int) == chars_view(sorted@));
    out
}

proof fn lemma_has_project_push(ts: Seq<TodoView>, t: TodoView, q: Seq<char>)
    requires
        t.project == Some(q),
    ensures
        forall|p: Seq<char>| #[trigger] has_project(ts.push(t), p) <==> (has_project(ts, p) || p == q),
{
    let all = ts.push(t);
    assert forall|p: Seq<char>| has_project(all, p) implies (has_project(ts, p) || p == q) by {
        let j = choose|j: int| 0 <= j < all.len() && #[trigger] all[j].project == Some(p);
        if j < ts.len() {
            assert(all[j] == ts[j]);
        }
    }
    assert forall|p: Seq<char>| (has_project(ts, p) || p == q) implies has_project(all, p) by {
        if has_project(ts, p) {
            let j = choose|j: int| 0 <= j < ts.len() && #[trigger] ts[j].project == Some(p);
            assert(all[j] == ts[j]);
        } else {
            assert(all[ts.len() as int] == t);
        }
    }
}

proof fn lemma_has_project_push_none(ts: Seq<TodoView>, t: TodoView)
    requires
        t.project is None,
    ensures
        forall|p: Seq<char>| #[trigger] has_project(ts.push(t), p) <==> has_project(ts, p),
{
    let all = ts.push(t);
    assert forall|p: Seq<char>| has_project(all, p) implies has_project(ts, p) by {
        let j = choose|j: int| 0 <= j < all.len() && #[trigger] all[j].project == Some(p);
        assert(all[j] == ts[j]);
    }
    assert forall|p: Seq<char>| has_project(ts, p) implies has_project(all, p) by {
        let j = choose|j: int| 0 <= j < ts.len() && #[trigger] ts[j].project == Some(p);
        assert(all[j] == ts[j]);
    }
}

proof fn lemma_insert_contains(v: Seq<Seq<char>>, pos: int, x: Seq<char>)
    requires
        0 <= pos <= v.len(),
    ensures
        forall|p: Seq<char>| v.insert(pos, x).contains(p) <==> (v.contains(p) || p == x),
{
    let w = v.insert(pos, x);
    assert forall|p: Seq<char>| w.contains(p) implies (v.contains(p) || p == x) by {
        let j = choose|j: int| 0 <= j < w.len() && w[j] == p;
        if j < pos {
            assert(w[j] == v[j]);
        } else if j > pos {
            assert(w[j] == v[j - 1]);
        }
    }
    assert forall|p: Seq<char>| (v.contains(p) || p == x) implies w.contains(p) by {
        if p == x {
            assert(w[pos] == x);
        } else {
            let j = choose|j: int| 0 <= j < v.len() && v[j] == p;
            if j < pos {
                assert(w[j] == v[j]);
            } else {
                assert(w[j + 1] == v[j]);
            }
        }
    }
}

proof fn lemma_sorted_insert(v: Seq<Seq<char>>, pos: int, x: Seq<char>)
    requires
        strictly_sorted(v),
        0 <= pos <= v.len(),
        forall|j: int| 0 <= j < pos ==> lex_lt(#[trigger] v[j], x),
        pos < v.len() ==> lex_lt(x, v[pos]),
    ensures
        strictly_sorted(v.insert(pos, x)),
{
    let w = v.insert(pos, x);
    assert forall|k: int, l: int| 0 <= k < l < w.len() implies lex_lt(w[k], w[l]) by {
        if k < pos && l < pos {
        } else if k < pos && l == pos {
        } else if k < pos {
            assert(w[l] == v[l - 1]);
            if l - 1 > pos {
                lemma_lex_transitive(v[k], v[pos], v[l - 1]);
            }
        } else if k == pos {
            assert(w[l] == v[l - 1]);
            if l - 1 > pos {
                lemma_lex_transitive(x, v[pos], v[l - 1]);
            }
        } else {
            assert(w[k] == v[k - 1]);
            assert(w[l] == v[l - 1]);
        }
    }
}

} // verus!

verus! {

// ---------------------------------------------------------------------------
// Changes to a list of todos
// ---------------------------------------------------------------------------

/// `t` with its done mark set to `done`.
pub open spec fn with_done(t: TodoView, done: bool) -> TodoView {
    TodoView { text: t.text, done: done, project: t.project }
}

/// Sets the done mark of the todo at `idx`; an index past the end changes
/// nothing.
pub fn set_done(todos: &mut Vec<Todo>, idx: usize, done: bool)
    ensures
        todos_view(final(todos)@) == if idx < old(todos)@.len() {
            todos_view(old(todos)@).update(idx as int, with_done(old(todos)@[idx as int]@, done))
        } else {
            todos_view(old(todos)@)
        },
        final(todos)@.len() == old(todos)@.len(),
        idx < old(todos)@.len() ==> final(todos)@[idx as int].done == done
            && final(todos)@[idx as int].text@ == old(todos)@[idx as int].text@
            && opt_view(final(todos)@[idx as int].project) == opt_view(old(todos)@[idx as int].project),
        forall|j: int| 0 <= j < old(todos)@.len() && j != idx ==> #[trigger] final(todos)@[j]@ == old(todos)@[j]@,
{
    if idx < todos.len() {
        let mut t = todos[idx].clone();
        t.done = done;
        let ghost tv = t@;
        todos.set(idx, t);
        assert(todos_view(todos@) == todos_view(old(todos)@).update(idx as int, tv));
    }
    proof {
        assert forall|j: int| 0 <= j < old(todos)@.len() && j != idx implies #[trigger] todos@[j]@ == old(todos)@[j]@ by {
            assert(todos_view(todos@)[j] == todos_view(old(todos)@)[j]);
        }
    }
}

/// Removes the todo at `idx`; an index past the end changes nothing.
pub fn delete_todo(todos: &mut Vec<Todo>, idx: usize)
    ensures
        todos_view(final(todos)@) == if idx < old(todos)@.len() {
            todos_view(old(todos)@).remove(idx as int)
        } else {
            todos_view(old(todos)@)
        },
{
    if idx < todos.len() {
        todos.remove(idx);
        assert(todos_view(todos@) == todos_view(old(todos)@).remove(idx as int));
    }
}

/// Appends the todo for `text`, as it is, to the list.
pub fn add_todo(todos: &mut Vec<Todo>, text: &str)
    ensures
        todos_view(final(todos)@) == todos_view(old(todos)@).push(todo_of_input(text@)),
{
    let t = new_todo(text);
    todos.push(t);
    assert(todos_view(todos@) == todos_view(old(todos)@).push(todo_of_input(text@)));
}

/// The text of a typed entry that is to be added: the entry trimmed, or
/// nothing when it is blank.
pub fn input_to_add(input: &str) -> (r: Option<String>)
    ensures
        match r {
            Some(s) => !is_blank(input@) && s@ == trim(input@),
            None => is_blank(input@),
        },
{
    let cs = chars_of(input);
    let (lo, hi) = trim_bounds(cs.as_slice());
    if lo == hi {
        None
    } else {
        Some(string_of_range(cs.as_slice(), lo, hi))
    }
}

// ---------------------------------------------------------------------------
// The window state
// ---------------------------------------------------------------------------

/// The todos and what the window shows of them.
pub struct State {
    pub todos: Vec<Todo>,
    pub filter: Filter,
    /// `None` shows every project.
    pub project_filter: Option<String>,
    pub search: String,
}

/// The label of the project menu entry that shows every project.
pub open spec fn all_projects_label() -> Seq<char> {
    "All projects"@
}

impl State {
    /// The window shows the todo at `i`.
    pub open spec fn shows(&self, i: int) -> bool {
        shown(self.todos@[i]@, self.filter, opt_view(self.project_filter), self.search@)
    }

    /// `r` lists, in increasing order, exactly the indices of the todos
    /// that the window shows.
    pub open spec fn is_shown_list(&self, r: Seq<usize>) -> bool {
        &&& increasing(r)
        &&& forall|k: int| 0 <= k < r.len() ==> r[k] < self.todos@.len() && self.shows(r[k] as int)
        &&& forall|i: int| 0 <= i < self.todos@.len() && self.shows(i) ==> r.contains(i as usize)
    }

    /// A window state over `todos` that shows them all: every done mark,
    /// every project, no search.
    pub fn new(todos: Vec<Todo>) -> (s: State)
        ensures
            s.todos@ == todos@,
            s.filter == Filter::All,
            s.project_filter is None,
            s.search@.len() == 0,
    {
        State { todos, filter: Filter::All, project_filter: None, search: String::new() }
    }

    /// The window shows everything: every done mark, every project, no
    /// search.
    pub open spec fn shows_everything(&self) -> bool {
        self.filter == Filter::All && self.project_filter is None && self.search@.len() == 0
    }

    /// The indices of the todos that the window shows, in order; all of
    /// them when nothing is filtered or searched.
    pub fn filtered_indices(&self) -> (r: Vec<usize>)
        ensures
            self.is_shown_list(r@),
            self.shows_everything() ==> r@ == Seq::new(self.todos@.len(), |i: int| i as usize),
    {
        let q = to_lowercase(self.search.as_str());
        let empty = String::new();
        let n = self.todos.len();
        let mut r: Vec<usize> = Vec::new();
        for i in 0..n
            invariant
                n == self.todos@.len(),
                q@ == unicode_lowercase(self.search@),
                self.search@.len() == 0 ==> q@.len() == 0,
                empty@ == Seq::<char>::empty(),
                increasing(r@),
                forall|k: int| 0 <= k < r@.len() ==> r@[k] < i && self.shows(r@[k] as int),
                forall|j: int| 0 <= j < i && self.shows(j) ==> r@.contains(j as usize),
                self.shows_everything() ==> r@ == Seq::new(i as nat, |j: int| j as usize),
        {
            let t = &self.todos[i];
            let tl = to_lowercase(t.text.as_str());
            let pl = match &t.project {
                Some(p) => to_lowercase(p.as_str()),
                None => to_lowercase(empty.as_str()),
            };
            assert(pl@ == unicode_lowercase(project_text(t@.project)));
            let keep = keep_todo(t, self.filter, &self.project_filter, q.as_str(), tl.as_str(), pl.as_str());
            let ghost before = r@;
            assert(self.shows_everything() ==> keep);
            if keep {
                r.push(i);
                assert(r@[r@.len() - 1] == i);
                assert forall|j: int| 0 <= j < i + 1 && self.shows(j) implies r@.contains(j as usize) by {
                    if j < i {
                        let k = choose|k: int| 0 <= k < before.len() && before[k] == j as usize;
                        assert(r@[k] == before[k]);
                    }
                }
            }
        }
        r
    }

    /// The project names used by the todos, each once, in the order of
    /// strings.
    pub fn projects(&self) -> (r: Vec<String>)
        ensures
            strictly_sorted(strings_view(r@)),
            forall|p: Seq<char>| strings_view(r@).contains(p) <==> has_project(todos_view(self.todos@), p),
    {
        projects_of(self.todos.as_slice())
    }

    /// Adds the todo typed into the entry: the entry is trimmed, and a
    /// blank entry adds nothing. Says whether a todo was added.
    pub fn add_input(&mut self, input: &str) -> (added: bool)
        ensures
            added == !is_blank(input@),
            todos_view(final(self).todos@) == if added {
                todos_view(old(self).todos@).push(todo_of_input(trim(input@)))
            } else {
                todos_view(old(self).todos@)
            },
            final(self).filter == old(self).filter,
            final(self).project_filter == old(self).project_filter,
            final(self).search == old(self).search,
    {
        match input_to_add(input) {
            None => false,
            Some(text) => {
                add_todo(&mut self.todos, text.as_str());
                true
            },
        }
    }

    /// Sets the done mark of the todo at `idx`, as its check box does.
    pub fn set_done(&mut self, idx: usize, done: bool)
        ensures
            todos_view(final(self).todos@) == if idx < old(self).todos@.len() {
                todos_view(old(self).todos@).update(idx as int, with_done(old(self).todos@[idx as int]@, done))
            } else {
                todos_view(old(self).todos@)
            },
            final(self).todos@.len() == old(self).todos@.len(),
            idx < old(self).todos@.len() ==> final(self).todos@[idx as int].done == done
                && final(self).todos@[idx as int].text@ == old(self).todos@[idx as int].text@
                && opt_view(final(self).todos@[idx as int].project) == opt_view(old(self).todos@[idx as int].project),
            forall|j: int| 0 <= j < old(self).todos@.len() && j != idx ==> #[trigger] final(self).todos@[j]@ == old(self).todos@[j]@,
            final(self).filter == old(self).filter,
            final(self).project_filter == old(self).project_filter,
            final(self).search == old(self).search,
    {
        set_done(&mut self.todos, idx, done);
    }

    /// Removes the todo at `idx`, as its delete button does.
    pub fn delete(&mut self, idx: usize)
        ensures
            todos_view(final(self).todos@) == if idx < old(self).todos@.len() {
                todos_view(old(self).todos@).remove(idx as int)
            } else {
                todos_view(old(self).todos@)
            },
            final(self).filter == old(self).filter,
            final(self).project_filter == old(self).project_filter,
            final(self).search == old(self).search,
    {
        delete_todo(&mut self.todos, idx);
    }

    /// The label of the project menu button.
    pub fn project_button_label(&self) -> (r: String)
        ensures
            r@ == match opt_view(self.project_filter) {
                None => all_projects_label(),
                Some(p) => p,
            },
    {
        match &self.project_filter {
            None => "All projects".to_owned(),
            Some(p) => p.clone(),
        }
    }

    /// The entries of the project menu: "All projects", which shows every
    /// project, then each project name, which shows that project.
    pub fn project_choices(&self) -> (r: Vec<(String, Option<String>)>)
        ensures
            r@.len() >= 1,
            r@[0].0@ == all_projects_label(),
            r@[0].1 is None,
            forall|k: int| 1 <= k < r@.len() ==> opt_view(#[trigger] r@[k].1) == Some(r@[k].0@),
            strictly_sorted(Seq::new((r@.len() - 1) as nat, |k: int| r@[k + 1].0@)),
            forall|p: Seq<char>|
                (exists|k: int| 1 <= k < r@.len() && #[trigger] r@[k].0@ == p) <==> has_project(
                    todos_view(self.todos@),
                    p,
                ),
    {
        let names = self.projects();
        let mut r: Vec<(String, Option<String>)> = Vec::new();
        r.push(("All projects".to_owned(), None));
        let m = names.len();
        for k in 0..m
            invariant
                m == names@.len(),
                r@.len() == k + 1,
                r@[0].0@ == all_projects_label(),
                r@[0].1 is None,
                forall|j: int| 1 <= j < r@.len() ==> opt_view(#[trigger] r@[j].1) == Some(r@[j].0@),
                forall|j: int| 1 <= j < r@.len() ==> #[trigger] r@[j].0@ == names@[j - 1]@,
        {
            r.push((names[k].clone(), Some(names[k].clone())));
        }
        proof {
            let sv = strings_view(names@);
            let labels = Seq::new((r@.len() - 1) as nat, |k: int| r@[k + 1].0@);
            assert(labels == sv);
            assert forall|p: Seq<char>|
                (exists|k: int| 1 <= k < r@.len() && #[trigger] r@[k].0@ == p) <==> sv.contains(p) by {
                if exists|k: int| 1 <= k < r@.len() && #[trigger] r@[k].0@ == p {
                    let k = choose|k: int| 1 <= k < r@.len() && #[trigger] r@[k].0@ == p;
                    assert(sv[k - 1] == p);
                }
                if sv.contains(p) {
                    let j = choose|j: int| 0 <= j < sv.len() && sv[j] == p;
                    assert(r@[j + 1].0@ == p);
                }
            }
            assert forall|p: Seq<char>|
                (exists|k: int| 1 <= k < r@.len() && #[trigger] r@[k].0@ == p) <==> has_project(
                    todos_view(self.todos@),
                    p,
                ) by {
                assert(sv.contains(p) <==> has_project(todos_view(self.todos@), p));
            }
        }
        r
    }

    /// The todos that the window shows, each with its index.
    pub fn visible_todos(&self) -> (r: Vec<(usize, Todo)>)
        ensures
            self.is_shown_list(Seq::new(r@.len(), |k: int| r@[k].0)),
            forall|k: int| 0 <= k < r@.len() ==> (#[trigger] r@[k]).1@ == self.todos@[r@[k].0 as int]@,
    {
        let idx = self.filtered_indices();
        let mut r: Vec<(usize, Todo)> = Vec::new();
        let m = idx.len();
        for k in 0..m
            invariant
                m == idx@.len(),
                self.is_shown_list(idx@),
                r@.len() == k,
                forall|j: int| 0 <= j < k ==> (#[trigger] r@[j]).0 == idx@[j],
                forall|j: int| 0 <= j < k ==> (#[trigger] r@[j]).1@ == self.todos@[r@[j].0 as int]@,
        {
            let i = idx[k];
            r.push((i, self.todos[i].clone()));
        }
        assert(Seq::new(r@.len(), |k: int| r@[k].0) == idx@);
        r
    }
}

} // verus!

verus! {

/// `a` is `b` with some elements left out, the rest kept in order.
pub open spec fn is_subsequence(a: Seq<usize>, b: Seq<usize>) -> bool {
    exists|f: Seq<int>|
        #![trigger f.len()]
        f.len() == a.len() && (forall|k: int| 0 <= k < f.len() ==> 0 <= #[trigger] f[k] < b.len() && b[f[k]] == a[k])
            && (forall|k: int, l: int| 0 <= k < l < f.len() ==> f[k] < f[l])
}

/// An increasing list whose elements all occur in another increasing list
/// is a subsequence of it.
pub proof fn lemma_increasing_subsequence(a: Seq<usize>, b: Seq<usize>)
    requires
        increasing(a),
        increasing(b),
        forall|x: usize| a.contains(x) ==> b.contains(x),
    ensures
        is_subsequence(a, b),
{
    let f = Seq::new(a.len(), |k: int| choose|j: int| 0 <= j < b.len() && b[j] == a[k]);
    assert forall|k: int| 0 <= k < f.len() implies 0 <= #[trigger] f[k] < b.len() && b[f[k]] == a[k] by {
        assert(a.contains(a[k]));
        assert(b.contains(a[k]));
    }
    assert forall|k: int, l: int| 0 <= k < l < f.len() implies f[k] < f[l] by {
        assert(a.contains(a[k]) && b.contains(a[k]));
        assert(a.contains(a[l]) && b.contains(a[l]));
        if f[k] >= f[l] {
            if f[k] > f[l] {
                assert(b[f[l]] < b[f[k]]);
            }
        }
    }
    assert(f.len() == a.len());
}

/// The Active and Done lists split the All list: for window states that
/// differ only in their done-mark filter, no index is in both the Active
/// and the Done list, each lies within the All list (all three are
/// increasing, so each is a subsequence of the All list), and together they
/// hold exactly the indices of the All list.
pub proof fn lemma_filter_split(
    all: State,
    active: State,
    done: State,
    r_all: Seq<usize>,
    r_active: Seq<usize>,
    r_done: Seq<usize>,
)
    requires
        all.filter == Filter::All,
        active.filter == Filter::Active,
        done.filter == Filter::Done,
        active.todos@ == all.todos@,
        done.todos@ == all.todos@,
        active.project_filter == all.project_filter,
        done.project_filter == all.project_filter,
        active.search == all.search,
        done.search == all.search,
        all.is_shown_list(r_all),
        active.is_shown_list(r_active),
        done.is_shown_list(r_done),
    ensures
        forall|x: usize| !(r_active.contains(x) && r_done.contains(x)),
        forall|x: usize| r_active.contains(x) ==> r_all.contains(x),
        forall|x: usize| r_done.contains(x) ==> r_all.contains(x),
        forall|x: usize| r_all.contains(x) <==> (r_active.contains(x) || r_done.contains(x)),
        is_subsequence(r_active, r_all),
        is_subsequence(r_done, r_all),
{
    assert forall|x: usize| r_active.contains(x) implies r_all.contains(x) && !r_done.contains(x) by {
        let k = choose|k: int| 0 <= k < r_active.len() && r_active[k] == x;
        assert(active.shows(x as int));
        assert(all.shows(x as int));
        if r_done.contains(x) {
            let j = choose|j: int| 0 <= j < r_done.len() && r_done[j] == x;
            assert(done.shows(x as int));
        }
    }
    assert forall|x: usize| r_done.contains(x) implies r_all.contains(x) by {
        let k = choose|k: int| 0 <= k < r_done.len() && r_done[k] == x;
        assert(done.shows(x as int));
        assert(all.shows(x as int));
    }
    assert forall|x: usize| r_all.contains(x) implies (r_active.contains(x) || r_done.contains(x)) by {
        let k = choose|k: int| 0 <= k < r_all.len() && r_all[k] == x;
        assert(all.shows(x as int));
        if all.todos@[x as int].done {
            assert(done.shows(x as int));
        } else {
            assert(active.shows(x as int));
        }
    }
    lemma_increasing_subsequence(r_active, r_all);
    lemma_increasing_subsequence(r_done, r_all);
}

} // verus!

verus! {

/// Setting the done mark changes only the done mark: the todo keeps its
/// task and its project.
pub proof fn lemma_with_done_keeps(t: TodoView, done: bool)
    ensures
        with_done(t, done).done == done,
        with_done(t, done).text == t.text,
        with_done(t, done).project == t.project,
{
}

/// The search text `q` occurs in `h` as a run of consecutive characters.
pub open spec fn occurs_in(h: Seq<char>, q: Seq<char>) -> bool {
    exists|j: int| 0 <= j && j + q.len() <= h.len() && #[trigger] h.subrange(j, j + q.len()) == q
}

/// The window shows the todo at `i` exactly when its done mark fits the
/// filter (All: any, Active: not done, Done: done), its project is the
/// chosen one (if one is chosen), and the lowercase search text is empty or
/// occurs in the lowercase task or in the lowercase project name.
pub proof fn lemma_shows_exactly(s: State, i: int)
    requires
        0 <= i < s.todos@.len(),
    ensures
        s.shows(i) <==> ({
            let t = s.todos@[i]@;
            let q = unicode_lowercase(s.search@);
            &&& (s.filter == Filter::Active ==> !t.done)
            &&& (s.filter == Filter::Done ==> t.done)
            &&& (s.project_filter matches Some(p) ==> t.project == Some(p@))
            &&& (q.len() == 0 || occurs_in(unicode_lowercase(t.text), q) || occurs_in(
                unicode_lowercase(
                    match t.project {
                        Some(p) => p,
                        None => Seq::<char>::empty(),
                    },
                ),
                q,
            ))
        }),
{
    let t = s.todos@[i]@;
    let q = unicode_lowercase(s.search@);
    let tl = unicode_lowercase(t.text);
    let pl = unicode_lowercase(project_text(t.project));
    assert(project_text(t.project) == match t.project {
        Some(p) => p,
        None => Seq::<char>::empty(),
    });
    assert(contains_seq(tl, q) == occurs_in(tl, q));
    assert(contains_seq(pl, q) == occurs_in(pl, q));
}

} // verus!

