//! Choosing a key: the labels of key files, the text of the selection menu,
//! how the menu answers a key press, and reading a typed choice.
use vstd::prelude::*;
use crate::outside::{file_name_of, path_file_name};
use crate::text::{str_chars, trim_chars, trim_spec, parse_u64, parse_u64_spec};

verus! {

broadcast use vstd::string::group_string_axioms;

/// The characters of each string.
pub open spec fn string_rows(v: Seq<String>) -> Seq<Seq<char>> {
    v.map_values(|s: String| s@)
}

/// The label of a key file: its file name, or the empty text when the path
/// has none.
pub open spec fn label_spec(path: Seq<char>) -> Seq<char> {
    match path_file_name(path) {
        Some(n) => n,
        None => seq![],
    }
}

/// The labels under which key files are offered: their file names.
pub fn key_labels(keys: &Vec<String>) -> (labels: Vec<String>)
    ensures
        labels.len() == keys.len(),
        forall|i: int| 0 <= i < keys.len() ==> #[trigger] labels[i]@ == label_spec(keys[i]@),
{
    let mut labels: Vec<String> = Vec::new();
    let mut i: usize = 0;
    while i < keys.len()
        invariant
            i <= keys.len(),
            labels.len() == i,
            forall|k: int| 0 <= k < i ==> #[trigger] labels[k]@ == label_spec(keys[k]@),
        decreases keys.len() - i,
    {
        let label = match file_name_of(keys[i].as_str()) {
            Some(n) => n,
            None => String::new(),
        };
        labels.push(label);
        i += 1;
    }
    labels
}

/// One line of the menu: the label, marked when it is the selected one.
pub open spec fn menu_line(label: Seq<char>, chosen: bool) -> Seq<char> {
    (if chosen {
        "  > "@
    } else {
        "    "@
    }) + label + "\r\n"@
}

/// The menu of labels, one line each, the selected one marked.
pub open spec fn menu_text(labels: Seq<Seq<char>>, selected: int) -> Seq<char>
    decreases labels.len(),
{
    if labels.len() == 0 {
        seq![]
    } else {
        menu_text(labels.drop_last(), selected) + menu_line(labels.last(), labels.len() - 1 == selected)
    }
}

/// The text that draws the menu of labels with `selected` marked.
pub fn render_list(labels: &Vec<String>, selected: usize) -> (text: String)
    ensures
        text@ == menu_text(string_rows(labels@), selected as int),
{
    let mut text = String::new();
    let mut i: usize = 0;
    while i < labels.len()
        invariant
            i <= labels.len(),
            text@ == menu_text(string_rows(labels@.take(i as int)), selected as int),
        decreases labels.len() - i,
    {
        let ghost before = text@;
        if i == selected {
            text.append("  > ");
        } else {
            text.append("    ");
        }
        text.append(labels[i].as_str());
        text.append("\r\n");
        proof {
            let rows = string_rows(labels@.take(i + 1));
            assert(rows.drop_last() =~= string_rows(labels@.take(i as int)));
            assert(rows.last() == labels[i as int]@);
            assert(text@ =~= before + menu_line(labels[i as int]@, i == selected));
        }
        i += 1;
    }
    assert(labels@.take(labels.len() as int) =~= labels@);
    text
}

/// `n` times "cursor up, erase line".
pub open spec fn erase_lines(n: nat) -> Seq<char>
    decreases n,
{
    if n == 0 {
        seq![]
    } else {
        erase_lines((n - 1) as nat) + "\x1b[A\x1b[2K"@
    }
}

/// The text that erases a drawn menu of labels and returns to the line start.
pub fn clear_list(labels: &Vec<String>) -> (text: String)
    ensures
        text@ == erase_lines(labels.len() as nat) + "\r"@,
{
    let mut text = String::new();
    let mut i: usize = 0;
    while i < labels.len()
        invariant
            i <= labels.len(),
            text@ == erase_lines(i as nat),
        decreases labels.len() - i,
    {
        text.append("\x1b[A\x1b[2K");
        i += 1;
    }
    text.append("\r");
    text
}

/// A key press, as the menu tells them apart.
#[derive(Debug, Clone, Copy, PartialEq, Eq, Structural)]
pub enum MenuKey {
    Up,
    Down,
    Enter,
    /// Escape, `q` or Ctrl-C.
    Quit,
    Other,
}

/// What the menu does after a key press.
#[derive(Debug, Clone, Copy, PartialEq, Eq, Structural)]
pub enum MenuAction {
    /// Draw the menu again with the new selection.
    Redraw,
    /// Take the selected key.
    Choose,
    /// Give up without a key.
    Abort,
}

/// How the menu answers a key press: up and down move the selection within
/// the list, enter takes it, quitting aborts, anything else changes nothing.
pub fn menu_step(selected: usize, count: usize, key: MenuKey) -> (res: (usize, MenuAction))
    requires
        selected < count,
    ensures
        res.0 < count,
        res == match key {
            MenuKey::Up => (if selected > 0 { (selected - 1) as usize } else { 0usize }, MenuAction::Redraw),
            MenuKey::Down => (if selected + 1 < count { (selected + 1) as usize } else { selected }, MenuAction::Redraw),
            MenuKey::Enter => (selected, MenuAction::Choose),
            MenuKey::Quit => (selected, MenuAction::Abort),
            MenuKey::Other => (selected, MenuAction::Redraw),
        },
{
    match key {
        MenuKey::Up => (selected.saturating_sub(1), MenuAction::Redraw),
        MenuKey::Down => {
            if selected < count - 1 {
                (selected + 1, MenuAction::Redraw)
            } else {
                (selected, MenuAction::Redraw)
            }
        },
        MenuKey::Enter => (selected, MenuAction::Choose),
        MenuKey::Quit => (selected, MenuAction::Abort),
        MenuKey::Other => (selected, MenuAction::Redraw),
    }
}

/// The position chosen by a typed answer: a number from 1 to `count`,
/// surrounded by whitespace or not, names the position one below it.
pub open spec fn selection_spec(input: Seq<char>, count: nat) -> Option<nat> {
    match parse_u64_spec(trim_spec(input)) {
        Some(n) => if 1 <= n && n <= count {
            Some((n - 1) as nat)
        } else {
            None
        },
        None => None,
    }
}

/// Read a typed choice among `count` keys: the position it names, or `None`
/// when the answer is not a number from 1 to `count`.
pub fn parse_selection(input: &str, count: usize) -> (res: Option<usize>)
    ensures
        match res {
            Some(i) => selection_spec(input@, count as nat) == Some(i as nat) && i < count,
            None => selection_spec(input@, count as nat) is None,
        },
{
    let chars = str_chars(input);
    let trimmed = trim_chars(&chars);
    match parse_u64(&trimmed) {
        Some(n) => {
            if 1 <= n && n <= count as u64 {
                Some((n - 1) as usize)
            } else {
                None
            }
        },
        None => None,
    }
}

/// Whether an answer to "Overwrite? [y/N]" agrees: `y` or `Y`, surrounded
/// by whitespace or not.
pub fn is_yes_answer(answer: &str) -> (yes: bool)
    ensures
        yes == (trim_spec(answer@) == seq!['y'] || trim_spec(answer@) == seq!['Y']),
{
    let chars = str_chars(answer);
    let t = trim_chars(&chars);
    let yes = t.len() == 1 && (t[0] == 'y' || t[0] == 'Y');
    proof {
        if t.len() == 1 {
            assert(t@ =~= seq![t@[0]]);
        }
    }
    yes
}

} // verus!
