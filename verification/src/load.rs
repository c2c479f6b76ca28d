//! Loading a loadout: from its name to the reconciler that puts its files
//! in place.

use vstd::prelude::*;

use crate::config::LoadoutsConfig;
use crate::error::Failure;
use crate::error::LoadoutError;
use crate::files::as_map;
use crate::files::keys;
use crate::merge::merge;
use crate::merge::merged;
use crate::merge::merged_entries;
use crate::reconcile::Reconciler;
use crate::resolve::loadouts_at;
use crate::resolve::resolve;
use crate::resolve::resolve_chain;
use crate::resolve::views_at;

verus! {

/// Prepares the loading of the loadout called `loadout_name`: resolves its
/// chain of ancestors, merges their files, and hands back the reconciler
/// that puts the merged mapping in place at the targets of the config. The
/// reconciler has done nothing yet, and holds each target of the merged
/// mapping once.
///
/// Fails as the resolving of the chain fails. A target that a loadout names
/// and the config does not define is no failure here: the reconciler fails
/// when it comes to it.
pub fn load_loadout<'a>(config: &'a LoadoutsConfig, loadout_name: &str) -> (result: Result<
    Reconciler<'a>,
    LoadoutError,
>)
    ensures
        match result {
            Ok(reconciler) => {
                &&& resolve(config@.loadouts, loadout_name@) matches Ok(places)
                &&& reconciler.plan().entries == merged_entries(
                    loadouts_at(config.loadouts@, places),
                )
                &&& as_map(reconciler.plan().entries) == merged(views_at(config@.loadouts, places))
                &&& keys(reconciler.plan().entries).no_duplicates()
                &&& reconciler.plan().targets == config@.targets
                &&& reconciler.state() == reconciler.plan().enter(0)
            },
            Err(e) => resolve(config@.loadouts, loadout_name@) == Err::<Seq<int>, Failure>(e@),
        },
{
    match resolve_chain(config, loadout_name) {
        Ok(chain) => {
            let mapping = merge(&chain);
            Ok(Reconciler::new(&config.targets, mapping))
        },
        Err(e) => Err(e),
    }
}

} // verus!
