//! The loadouts config: the target slots and the loadouts that fill them.

use vstd::prelude::*;

use crate::files::FileMap;
use crate::files::LoadoutName;

verus! {

/// A loadout, defining destination files for each target.
#[derive(Debug)]
pub struct Loadout {
    pub name: LoadoutName,
    pub parent: Option<LoadoutName>,
    pub files: FileMap,
}

/// The loadouts config.
#[derive(Debug)]
pub struct LoadoutsConfig {
    pub targets: FileMap,
    pub loadouts: Vec<Loadout>,
}

/// What a loadout says, with text as sequences of characters.
pub struct LoadoutView {
    pub name: Seq<char>,
    pub parent: Option<Seq<char>>,
    pub files: Map<Seq<char>, Seq<char>>,
}

/// What a config says.
pub struct ConfigView {
    pub targets: Map<Seq<char>, Seq<char>>,
    pub loadouts: Seq<LoadoutView>,
}

impl View for Loadout {
    type V = LoadoutView;

    open spec fn view(&self) -> LoadoutView {
        LoadoutView {
            name: self.name@,
            parent: match self.parent {
                Some(p) => Some(p@),
                None => None,
            },
            files: self.files@,
        }
    }
}

impl View for LoadoutsConfig {
    type V = ConfigView;

    open spec fn view(&self) -> ConfigView {
        ConfigView {
            targets: self.targets@,
            loadouts: self.loadouts@.map_values(|l: Loadout| l@),
        }
    }
}

impl Clone for Loadout {
    fn clone(&self) -> (copy: Self)
        ensures
            copy@ == self@,
    {
        Loadout {
            name: self.name.clone(),
            parent: match &self.parent {
                Some(parent) => Some(parent.clone()),
                None => None,
            },
            files: self.files.clone(),
        }
    }
}

impl Clone for LoadoutsConfig {
    fn clone(&self) -> (copy: Self)
        ensures
            copy@ == self@,
    {
        let mut loadouts: Vec<Loadout> = Vec::new();
        let mut i: usize = 0;
        while i < self.loadouts.len()
            invariant
                i <= self.loadouts.len(),
                loadouts@.len() == i,
                forall|j: int| 0 <= j < i ==> (#[trigger] loadouts@[j])@ == self.loadouts@[j]@,
            decreases self.loadouts.len() - i,
        {
            loadouts.push(self.loadouts[i].clone());
            i += 1;
        }
        let copy = LoadoutsConfig { targets: self.targets.clone(), loadouts };
        assert(copy@.loadouts =~= self@.loadouts);
        copy
    }
}

} // verus!
