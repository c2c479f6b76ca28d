//! The ways in which loading a loadout fails.

use vstd::prelude::*;
use vstd::string::StringExecFns;

verus! {

/// Why a loadout could not be loaded. Each failure carries the name or the
/// path that it is about.
#[derive(Debug, PartialEq, Eq)]
pub enum LoadoutError {
    /// No loadout of the config has this name.
    UnknownLoadout { name: String },
    /// The loadout of this name is its own ancestor.
    CyclicInheritance { name: String },
    /// A loadout names a target that the config does not define.
    UnknownTarget { target: String },
    /// The file that a loadout wants to link to does not exist.
    MissingSource { path: String },
    /// The target path exists and is not a symbolic link.
    TargetNotOwned { path: String },
    /// The symbolic link at the target path could not be removed.
    LinkRemovalFailed { path: String },
    /// No symbolic link could be created at the target path.
    LinkCreationFailed { target: String, source: String },
}

/// A failure, with text as sequences of characters.
pub enum Failure {
    UnknownLoadout { name: Seq<char> },
    CyclicInheritance { name: Seq<char> },
    UnknownTarget { target: Seq<char> },
    MissingSource { path: Seq<char> },
    TargetNotOwned { path: Seq<char> },
    LinkRemovalFailed { path: Seq<char> },
    LinkCreationFailed { target: Seq<char>, source: Seq<char> },
}

impl View for LoadoutError {
    type V = Failure;

    open spec fn view(&self) -> Failure {
        match self {
            LoadoutError::UnknownLoadout { name } => Failure::UnknownLoadout { name: name@ },
            LoadoutError::CyclicInheritance { name } => Failure::CyclicInheritance { name: name@ },
            LoadoutError::UnknownTarget { target } => Failure::UnknownTarget { target: target@ },
            LoadoutError::MissingSource { path } => Failure::MissingSource { path: path@ },
            LoadoutError::TargetNotOwned { path } => Failure::TargetNotOwned { path: path@ },
            LoadoutError::LinkRemovalFailed { path } => Failure::LinkRemovalFailed { path: path@ },
            LoadoutError::LinkCreationFailed { target, source } => Failure::LinkCreationFailed {
                target: target@,
                source: source@,
            },
        }
    }
}

impl Failure {
    /// The failure in words, with the name or the path that it is about
    /// between quotation marks.
    pub open spec fn message(self) -> Seq<char> {
        match self {
            Failure::UnknownLoadout { name } => "loadout \""@ + name + "\" could not be found"@,
            Failure::CyclicInheritance { name } => "loadout \""@ + name
                + "\" is its own ancestor"@,
            Failure::UnknownTarget { target } => "target with identifier \""@ + target
                + "\" could not be found"@,
            Failure::MissingSource { path } => "source path \""@ + path + "\" does not exist"@,
            Failure::TargetNotOwned { path } => "target path \""@ + path
                + "\" exists already and is not a symbolic link"@,
            Failure::LinkRemovalFailed { path } => "unable to remove the symlink \""@ + path
                + "\""@,
            Failure::LinkCreationFailed { target, source } => {
                "unable to create a symbolic link at \""@ + target + "\" pointing to \""@ + source
                    + "\""@
            },
        }
    }
}

/// Puts `text` between `before` and `after`.
fn enclose(before: &str, text: &String, after: &str) -> (whole: String)
    ensures
        whole@ == before@ + text@ + after@,
{
    let mut whole = before.to_owned();
    whole.append(text.as_str());
    whole.append(after);
    whole
}

impl LoadoutError {
    /// The failure in words, for the user to read.
    pub fn message(&self) -> (text: String)
        ensures
            text@ == self@.message(),
    {
        match self {
            LoadoutError::UnknownLoadout { name } => enclose(
                "loadout \"",
                name,
                "\" could not be found",
            ),
            LoadoutError::CyclicInheritance { name } => enclose(
                "loadout \"",
                name,
                "\" is its own ancestor",
            ),
            LoadoutError::UnknownTarget { target } => enclose(
                "target with identifier \"",
                target,
                "\" could not be found",
            ),
            LoadoutError::MissingSource { path } => enclose(
                "source path \"",
                path,
                "\" does not exist",
            ),
            LoadoutError::TargetNotOwned { path } => enclose(
                "target path \"",
                path,
                "\" exists already and is not a symbolic link",
            ),
            LoadoutError::LinkRemovalFailed { path } => enclose(
                "unable to remove the symlink \"",
                path,
                "\"",
            ),
            LoadoutError::LinkCreationFailed { target, source } => {
                let mut text = enclose(
                    "unable to create a symbolic link at \"",
                    target,
                    "\" pointing to \"",
                );
                text.append(source.as_str());
                text.append("\"");
                text
            },
        }
    }
}

impl Clone for LoadoutError {
    fn clone(&self) -> (copy: Self)
        ensures
            copy@ == self@,
    {
        match self {
            LoadoutError::UnknownLoadout { name } => LoadoutError::UnknownLoadout {
                name: name.clone(),
            },
            LoadoutError::CyclicInheritance { name } => LoadoutError::CyclicInheritance {
                name: name.clone(),
            },
            LoadoutError::UnknownTarget { target } => LoadoutError::UnknownTarget {
                target: target.clone(),
            },
            LoadoutError::MissingSource { path } => LoadoutError::MissingSource {
                path: path.clone(),
            },
            LoadoutError::TargetNotOwned { path } => LoadoutError::TargetNotOwned {
                path: path.clone(),
            },
            LoadoutError::LinkRemovalFailed { path } => LoadoutError::LinkRemovalFailed {
                path: path.clone(),
            },
            LoadoutError::LinkCreationFailed { target, source } => LoadoutError::LinkCreationFailed {
                target: target.clone(),
                source: source.clone(),
            },
        }
    }
}

} // verus!
