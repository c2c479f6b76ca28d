//! What a line of user input asks for, and how the menu of loadouts is laid
//! out.

use vstd::prelude::*;

use crate::config::LoadoutView;
use crate::config::LoadoutsConfig;
use crate::files::lemma_first_index;
use crate::files::lemma_no_index;
use crate::text::lowercased;
use crate::text::parse_index;
use crate::text::starts_with;
use crate::text::to_lowercase;
use crate::text::trim;
use crate::text::trim_start;
use crate::text::trimmed;
use crate::text::trimmed_start;
use crate::text::written_index;
use crate::util::strip_line_end;
use crate::util::without_line_end;

verus! {

/// What the user asked for.
#[derive(Debug, Clone, Copy, PartialEq, Eq)]
pub enum Command {
    /// Read the config again and show the menu again.
    Refresh,
    /// Leave the program.
    Exit,
    /// Load the loadout at this place in the config.
    Load { index: usize },
    /// Nothing that the program knows.
    Unrecognized,
}

/// A line of input as the program reads it: in lowercase, without the line
/// end, without whitespace around it.
pub open spec fn normalized(line: Seq<char>) -> Seq<char> {
    trimmed(without_line_end(lowercased(line)))
}

/// For each name, whether it begins with `selection`.
pub open spec fn prefix_hits(names: Seq<Seq<char>>, selection: Seq<char>) -> Seq<bool> {
    names.map_values(|name: Seq<char>| selection.is_prefix_of(name))
}

/// What a normalized line of input asks for, with the names of the
/// loadouts in lowercase to choose from.
///
/// An empty line and `r` ask for a refresh; `e`, `q` and `x` ask to leave. A
/// number asks for the loadout at that place, and for nothing that the
/// program knows where there is no such place. Any other text asks for the
/// first loadout whose name begins with it.
pub open spec fn interpretation(names: Seq<Seq<char>>, selection: Seq<char>) -> Command {
    if selection.len() == 0 {
        Command::Refresh
    } else {
        match written_index(selection) {
            Some(index) => if index < names.len() {
                Command::Load { index }
            } else {
                Command::Unrecognized
            },
            None => if selection == seq!['r'] {
                Command::Refresh
            } else if selection == seq!['e'] || selection == seq!['q'] || selection == seq!['x'] {
                Command::Exit
            } else {
                match prefix_hits(names, selection).index_of_first(true) {
                    Some(index) => Command::Load { index: index as usize },
                    None => Command::Unrecognized,
                }
            },
        }
    }
}

/// The names of the loadouts, each in lowercase.
pub open spec fn lowercase_names(loadouts: Seq<LoadoutView>) -> Seq<Seq<char>> {
    loadouts.map_values(|l: LoadoutView| lowercased(l.name))
}

/// What a sequence of texts says.
pub open spec fn texts(names: Seq<String>) -> Seq<Seq<char>> {
    names.map_values(|name: String| name@)
}

/// Brings a line of input into the form in which it is interpreted:
/// lowercase, without the line end, without whitespace around it.
pub fn normalize(line: &str) -> (selection: String)
    ensures
        selection@ == normalized(line@),
{
    let lower = to_lowercase(line);
    trim(strip_line_end(lower.as_str())).to_owned()
}

/// Tells whether `selection` is the one character `key`.
fn is_key(selection: &str, key: char) -> (same: bool)
    ensures
        same == (selection@ == seq![key]),
{
    if selection.unicode_len() == 1 {
        let first = selection.get_char(0);
        assert(first == key ==> selection@ =~= seq![key]);
        first == key
    } else {
        false
    }
}

/// The first of `names` that begins with `selection`.
fn find_by_prefix(names: &Vec<String>, selection: &str) -> (found: Option<usize>)
    ensures
        match found {
            Some(i) => prefix_hits(texts(names@), selection@).index_of_first(true) == Some(
                i as int,
            ),
            None => prefix_hits(texts(names@), selection@).index_of_first(true) is None,
        },
{
    let ghost hits = prefix_hits(texts(names@), selection@);
    let mut i: usize = 0;
    while i < names.len()
        invariant
            i <= names.len(),
            hits == prefix_hits(texts(names@), selection@),
            forall|j: int| 0 <= j < i ==> !hits[j],
        decreases names.len() - i,
    {
        if starts_with(names[i].as_str(), selection) {
            proof {
                assert(hits[i as int]);
                lemma_first_index(hits, true, i as int);
            }
            return Some(i);
        }
        i += 1;
    }
    proof {
        lemma_no_index(hits, true);
    }
    None
}

/// Decides what a normalized line of input asks for, with the names of the
/// loadouts in lowercase to choose from.
pub fn interpret_among(selection: &str, names: &Vec<String>) -> (command: Command)
    ensures
        command == interpretation(texts(names@), selection@),
{
    if selection.unicode_len() == 0 {
        return Command::Refresh;
    }
    match parse_index(selection) {
        Some(index) => if index < names.len() {
            Command::Load { index }
        } else {
            Command::Unrecognized
        },
        None => if is_key(selection, 'r') {
            Command::Refresh
        } else if is_key(selection, 'e') || is_key(selection, 'q') || is_key(selection, 'x') {
            Command::Exit
        } else {
            match find_by_prefix(names, selection) {
                Some(index) => Command::Load { index },
                None => Command::Unrecognized,
            }
        },
    }
}

/// Decides what a normalized line of input asks for, with the loadouts of
/// `config` to choose from. A loadout is found by the start of its name in
/// lowercase.
pub fn interpret(selection: &str, config: &LoadoutsConfig) -> (command: Command)
    ensures
        command == interpretation(lowercase_names(config@.loadouts), selection@),
{
    let mut names: Vec<String> = Vec::new();
    let mut i: usize = 0;
    while i < config.loadouts.len()
        invariant
            i <= config.loadouts.len(),
            texts(names@) == lowercase_names(config@.loadouts).take(i as int),
        decreases config.loadouts.len() - i,
    {
        let ghost before = texts(names@);
        names.push(to_lowercase(config.loadouts[i].name.as_str()));
        proof {
            let all = lowercase_names(config@.loadouts);
            assert(texts(names@) =~= before.push(all[i as int]));
            assert(all.take(i as int + 1) =~= all.take(i as int).push(all[i as int]));
        }
        i += 1;
    }
    proof {
        let all = lowercase_names(config@.loadouts);
        assert(all.take(i as int) =~= all);
    }
    interpret_among(selection, &names)
}

/// Tells whether an answer to a question says yes: whether, in lowercase
/// and without the whitespace before it, it begins with a `y`.
pub fn is_yes(answer: &str) -> (yes: bool)
    ensures
        yes == seq!['y'].is_prefix_of(trimmed_start(lowercased(answer@))),
{
    let lower = to_lowercase(answer);
    proof {
        reveal_strlit("y");
        assert("y"@ =~= seq!['y']);
    }
    starts_with(trim_start(lower.as_str()), "y")
}

/// The number of decimal digits of `number`.
pub open spec fn digits(number: nat) -> nat
    decreases number,
{
    if number < 10 {
        1
    } else {
        1 + digits(number / 10)
    }
}

/// The width of the column of indices in a menu of `count` loadouts: the
/// number of digits of the largest index, and 1 for an empty menu.
pub open spec fn index_width(count: nat) -> nat {
    if count == 0 {
        1
    } else {
        digits((count - 1) as nat)
    }
}

/// Computes the width to which the indices of a menu of `count` loadouts
/// are padded, so that the entries stay lined up.
pub fn number_width(count: usize) -> (width: usize)
    ensures
        width == index_width(count as nat),
{
    let mut rest: usize = if count == 0 {
        0
    } else {
        count - 1
    };
    let mut width: usize = 1;
    while rest >= 10
        invariant
            1 <= width,
            width + digits(rest as nat) == 1 + index_width(count as nat),
            width + rest <= usize::MAX,
        decreases rest,
    {
        rest = rest / 10;
        width += 1;
    }
    width
}

/// The keys that leave the program, as many of them as fit in a column of
/// the given width.
pub open spec fn fitting_exit_keys(width: nat) -> Seq<char> {
    if width >= 5 {
        "E/Q/X"@
    } else if width >= 3 {
        "E/Q"@
    } else {
        "E"@
    }
}

/// The keys that leave the program, as the menu shows them in a column of
/// the given width: as many of them as fit.
pub fn exit_keys(width: usize) -> (keys: &'static str)
    ensures
        keys@ == fitting_exit_keys(width as nat),
{
    if width >= 5 {
        "E/Q/X"
    } else if width >= 3 {
        "E/Q"
    } else {
        "E"
    }
}

/// How the menu of loadouts is laid out.
#[derive(Debug, Clone, PartialEq, Eq)]
pub struct Menu {
    /// The width to which the indices are padded.
    pub number_width: usize,
    /// Whether the actions are listed above the loadouts.
    pub with_actions: bool,
    /// The keys that leave the program, as they are listed with the actions.
    pub exit_keys: &'static str,
    /// For each loadout, whether it is the one that was selected last.
    pub selected: Vec<bool>,
}

/// Lays out the menu for the loadouts of `config`, after the loadout called
/// `previous` was selected, if any was. The actions are listed until a
/// loadout has been selected, and the loadout that was selected last is
/// marked from then on.
pub fn lay_out_menu(config: &LoadoutsConfig, previous: Option<&str>) -> (menu: Menu)
    ensures
        menu.number_width == index_width(config@.loadouts.len()),
        menu.with_actions == (previous is None),
        menu.exit_keys@ == fitting_exit_keys(menu.number_width as nat),
        menu.selected@.len() == config@.loadouts.len(),
        forall|i: int|
            0 <= i < config@.loadouts.len() ==> (#[trigger] menu.selected@[i] <==> previous
                is Some && config@.loadouts[i].name == previous->Some_0@),
{
    let number_width = number_width(config.loadouts.len());
    let mut selected: Vec<bool> = Vec::new();
    let mut i: usize = 0;
    while i < config.loadouts.len()
        invariant
            i <= config.loadouts.len(),
            selected@.len() == i,
            forall|j: int|
                0 <= j < i ==> (#[trigger] selected@[j] <==> previous is Some
                    && config@.loadouts[j].name == previous->Some_0@),
        decreases config.loadouts.len() - i,
    {
        let same = match previous {
            Some(name) => config.loadouts[i].name == name.to_owned(),
            None => false,
        };
        assert(config@.loadouts[i as int].name == config.loadouts[i as int].name@);
        selected.push(same);
        i += 1;
    }
    Menu {
        number_width,
        with_actions: previous.is_none(),
        exit_keys: exit_keys(number_width),
        selected,
    }
}

} // verus!
