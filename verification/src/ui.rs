//! Small decisions of the windows: the colour class of a project tag and
//! what the keyboard shortcuts do.

use vstd::prelude::*;
use vstd::utf8::encode_utf8;

verus! {

/// The sum of some bytes.
pub open spec fn byte_sum(bs: Seq<u8>) -> nat
    decreases bs.len(),
{
    if bs.len() == 0 {
        0
    } else {
        (byte_sum(bs.drop_last()) + bs.last()) as nat
    }
}

/// The style class for colour number `k` of the five tag colours.
pub open spec fn tag_class_name(k: nat) -> Seq<char> {
    if k == 0 {
        "tag-0"@
    } else if k == 1 {
        "tag-1"@
    } else if k == 2 {
        "tag-2"@
    } else if k == 3 {
        "tag-3"@
    } else {
        "tag-4"@
    }
}

proof fn lemma_mod_step(s: nat, h: nat, b: nat)
    requires
        h == s % 5,
    ensures
        (h + b) % 5 == (s + b) % 5,
{
    assert((h + b) % 5 == (s + b) % 5) by (nonlinear_arith)
        requires
            h == s % 5,
    ;
}

/// The style class that colours the tag of a project: one of five,
/// chosen by the sum of the bytes of its UTF-8 encoding, modulo five.
pub fn project_tag_class(project: &str) -> (r: &'static str)
    ensures
        r@ == tag_class_name(byte_sum(encode_utf8(project@)) % 5),
{
    let bs = project.as_bytes();
    let n = bs.len();
    let mut h: usize = 0;
    for i in 0..n
        invariant
            n == bs@.len(),
            bs@ == encode_utf8(project@),
            h == byte_sum(bs@.take(i as int)) % 5,
            h < 5,
    {
        proof {
            let t = bs@.take(i + 1);
            assert(t.drop_last() == bs@.take(i as int));
            assert(t.last() == bs@[i as int]);
            lemma_mod_step(byte_sum(bs@.take(i as int)), h as nat, bs@[i as int] as nat);
        }
        h = (h + bs[i] as usize) % 5;
    }
    assert(bs@.take(n as int) == bs@);
    if h == 0 {
        "tag-0"
    } else if h == 1 {
        "tag-1"
    } else if h == 2 {
        "tag-2"
    } else if h == 3 {
        "tag-3"
    } else {
        "tag-4"
    }
}

/// The keys that the windows react to.
#[derive(Clone, Copy, Debug, PartialEq, Eq, Structural)]
pub enum Key {
    /// The `f` key.
    F,
    Escape,
    Other,
}

/// What a key press in the main window does.
#[derive(Clone, Copy, Debug, PartialEq, Eq, Structural)]
pub enum KeyAction {
    /// Show the search bar if hidden, hide it if shown.
    ToggleSearch,
    /// Empty the add entry and hide the search bar.
    ClearAndCloseSearch,
    /// Let the press through to the focused widget.
    Pass,
}

/// What a key press in the main window does: Ctrl+F toggles the search
/// bar, Escape clears the add entry and hides the search bar.
pub fn main_key_action(ctrl: bool, key: Key) -> (r: KeyAction)
    ensures
        r == if ctrl && key == Key::F {
            KeyAction::ToggleSearch
        } else if key == Key::Escape {
            KeyAction::ClearAndCloseSearch
        } else {
            KeyAction::Pass
        },
{
    if ctrl && key == Key::F {
        KeyAction::ToggleSearch
    } else if key == Key::Escape {
        KeyAction::ClearAndCloseSearch
    } else {
        KeyAction::Pass
    }
}

/// Whether a key press closes the quick-add window: Escape does.
pub fn quick_add_key_closes(key: Key) -> (r: bool)
    ensures
        r == (key == Key::Escape),
{
    key == Key::Escape
}

} // verus!
