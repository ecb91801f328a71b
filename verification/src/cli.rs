//! The command line: which mode the program runs in, and where the todo
//! file lives.

use vstd::prelude::*;
use crate::text::{chars_of, push_char};

verus! {

/// What the program was asked to do.
pub enum Command {
    /// Print the status bar module's JSON line.
    Waybar,
    /// Run as a tray icon.
    Tray,
    /// Add a todo with the given text.
    Add(String),
    /// Open the small quick-add window.
    QuickAdd,
    /// Print the usage text.
    Help,
    /// Open the todo window.
    Gui,
}

/// The value of a `Command`.
pub enum CommandView {
    Waybar,
    Tray,
    Add(Seq<char>),
    QuickAdd,
    Help,
    Gui,
}

impl View for Command {
    type V = CommandView;

    open spec fn view(&self) -> CommandView {
        match self {
            Command::Waybar => CommandView::Waybar,
            Command::Tray => CommandView::Tray,
            Command::Add(t) => CommandView::Add(t@),
            Command::QuickAdd => CommandView::QuickAdd,
            Command::Help => CommandView::Help,
            Command::Gui => CommandView::Gui,
        }
    }
}

/// The words joined by single spaces.
pub open spec fn join_words(ws: Seq<Seq<char>>) -> Seq<char>
    decreases ws.len(),
{
    if ws.len() == 0 {
        seq![]
    } else if ws.len() == 1 {
        ws[0]
    } else {
        join_words(ws.drop_last()) + seq![' '] + ws.last()
    }
}

/// The values of a list of strings.
pub open spec fn args_view(args: Seq<String>) -> Seq<Seq<char>> {
    args.map_values(|a: String| a@)
}

/// The command that the program's arguments ask for (the first argument
/// is the program's name): `waybar`, `tray`, `add` followed by the words of
/// the todo, `quick-add`, `help`, `--help` or `-h`; anything else opens the
/// window.
pub open spec fn command_of(args: Seq<Seq<char>>) -> CommandView {
    if args.len() > 1 {
        let a = args[1];
        if a == "waybar"@ {
            CommandView::Waybar
        } else if a == "tray"@ {
            CommandView::Tray
        } else if a == "add"@ && args.len() > 2 {
            CommandView::Add(join_words(args.skip(2)))
        } else if a == "quick-add"@ {
            CommandView::QuickAdd
        } else if a == "help"@ || a == "--help"@ || a == "-h"@ {
            CommandView::Help
        } else {
            CommandView::Gui
        }
    } else {
        CommandView::Gui
    }
}

/// Whether two strings are equal.
pub fn same_text(a: &str, b: &str) -> (r: bool)
    ensures
        r == (a@ == b@),
{
    let x = chars_of(a);
    let y = chars_of(b);
    if x.len() != y.len() {
        return false;
    }
    let n = x.len();
    for k in 0..n
        invariant
            n == x@.len(),
            n == y@.len(),
            x@ == a@,
            y@ == b@,
            forall|j: int| 0 <= j < k ==> x@[j] == y@[j],
    {
        if x[k] != y[k] {
            assert(a@[k as int] != b@[k as int]);
            return false;
        }
    }
    assert(x@ == y@);
    true
}

/// The words `args[from..]` joined by single spaces.
fn join_from(args: &[String], from: usize) -> (r: String)
    requires
        from <= args@.len(),
    ensures
        r@ == join_words(args_view(args@).skip(from as int)),
{
    let n = args.len();
    let ghost av = args_view(args@);
    let mut s = String::new();
    let mut i = from;
    assert(av.skip(from as int).take(0) == Seq::<Seq<char>>::empty());
    while i < n
        invariant
            from <= i <= n,
            n == args@.len(),
            av == args_view(args@),
            s@ == join_words(av.skip(from as int).take(i - from)),
        decreases n - i,
    {
        if i > from {
            push_char(&mut s, ' ');
        }
        s.append(args[i].as_str());
        proof {
            let ws = av.skip(from as int).take(i + 1 - from);
            assert(ws.drop_last() == av.skip(from as int).take(i - from));
            assert(ws.last() == args@[i as int]@);
        }
        i = i + 1;
    }
    assert(av.skip(from as int).take(n - from) == av.skip(from as int));
    s
}

/// The command that the program's arguments ask for.
pub fn parse_command(args: &[String]) -> (r: Command)
    ensures
        r@ == command_of(args_view(args@)),
{
    if args.len() > 1 {
        let a = args[1].as_str();
        assert(a@ == args_view(args@)[1]);
        if same_text(a, "waybar") {
            Command::Waybar
        } else if same_text(a, "tray") {
            Command::Tray
        } else if same_text(a, "add") && args.len() > 2 {
            Command::Add(join_from(args, 2))
        } else if same_text(a, "quick-add") {
            Command::QuickAdd
        } else if same_text(a, "help") || same_text(a, "--help") || same_text(a, "-h") {
            Command::Help
        } else {
            Command::Gui
        }
    } else {
        Command::Gui
    }
}

/// The directory under which the program keeps its data.
pub enum DataDir {
    /// This directory itself (from `XDG_DATA_HOME`).
    Given(String),
    /// `.local/share` inside this directory (the home directory).
    UnderHome(String),
}

/// Where the data lives: `XDG_DATA_HOME` when it is set, else
/// `.local/share` in the home directory, else in the current directory.
pub fn data_dir(xdg_data_home: Option<String>, home: Option<String>) -> (r: DataDir)
    ensures
        match r {
            DataDir::Given(d) => xdg_data_home is Some && d@ == xdg_data_home->0@,
            DataDir::UnderHome(h) => xdg_data_home is None && h@ == match home {
                Some(x) => x@,
                None => "."@,
            },
        },
{
    match xdg_data_home {
        Some(d) => DataDir::Given(d),
        None => match home {
            Some(h) => DataDir::UnderHome(h),
            None => DataDir::UnderHome(".".to_owned()),
        },
    }
}

} // verus!
