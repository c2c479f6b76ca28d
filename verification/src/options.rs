//! What the program is started with: where its config lies, and whether it
//! writes in colour.

use vstd::prelude::*;

use crate::text::lowercased;
use crate::text::to_lowercase;

verus! {

/// When the program writes in colour.
#[derive(Debug, Clone, Copy, PartialEq, Eq)]
pub enum ColourMode {
    /// Where the terminal takes it.
    Auto,
    Always,
    Never,
}

/// The colour mode that a text in lowercase names.
pub open spec fn named_colour_mode(name: Seq<char>) -> Option<ColourMode> {
    if name == "auto"@ {
        Some(ColourMode::Auto)
    } else if name == "always"@ {
        Some(ColourMode::Always)
    } else if name == "never"@ {
        Some(ColourMode::Never)
    } else {
        None
    }
}

/// Reads the name of a colour mode: `auto`, `always` or `never`, as it is
/// written here. Any other text is none.
pub fn colour_mode_named(name: &str) -> (mode: Option<ColourMode>)
    ensures
        mode == named_colour_mode(name@),
{
    let name = name.to_owned();
    if name == "auto".to_owned() {
        Some(ColourMode::Auto)
    } else if name == "always".to_owned() {
        Some(ColourMode::Always)
    } else if name == "never".to_owned() {
        Some(ColourMode::Never)
    } else {
        None
    }
}

/// Reads a colour mode: `auto`, `always` or `never`, in any case. Any other
/// text is none.
pub fn parse_colour_mode(value: &str) -> (mode: Option<ColourMode>)
    ensures
        mode == named_colour_mode(lowercased(value@)),
{
    let lower = to_lowercase(value);
    colour_mode_named(lower.as_str())
}

/// Tells whether the program is to write without colour: always in the mode
/// `Never`, and in the mode `Auto` where the terminal does not take colour.
pub fn colour_disabled(mode: ColourMode, terminal_takes_colour: bool) -> (disabled: bool)
    ensures
        disabled == match mode {
            ColourMode::Never => true,
            ColourMode::Always => false,
            ColourMode::Auto => !terminal_takes_colour,
        },
{
    match mode {
        ColourMode::Never => true,
        ColourMode::Always => false,
        ColourMode::Auto => !terminal_takes_colour,
    }
}

/// Chooses the path of the loadouts config: the one given on the command
/// line, else the one from the environment, else the default one.
pub fn choose_config_path<P>(
    argument: Option<P>,
    environment: Option<P>,
    default: Option<P>,
) -> (path: Option<P>)
    ensures
        path == (if argument is Some {
            argument
        } else if environment is Some {
            environment
        } else {
            default
        }),
{
    match argument {
        Some(path) => Some(path),
        None => match environment {
            Some(path) => Some(path),
            None => default,
        },
    }
}

} // verus!
