//! The inheritance resolver: from a loadout's name to the chain of its
//! ancestors.

use vstd::prelude::*;

use crate::config::Loadout;
use crate::config::LoadoutView;
use crate::config::LoadoutsConfig;
use crate::error::Failure;
use crate::error::LoadoutError;
use crate::files::lemma_first_index;
use crate::files::lemma_no_index;

verus! {

/// The names of the loadouts, in their order.
pub open spec fn names(loadouts: Seq<LoadoutView>) -> Seq<Seq<char>> {
    loadouts.map_values(|l: LoadoutView| l.name)
}

/// The index of the first loadout called `name`.
pub open spec fn lookup(loadouts: Seq<LoadoutView>, name: Seq<char>) -> Option<int> {
    names(loadouts).index_of_first(name)
}

/// The loadouts that are not on `chain`, by index.
pub open spec fn unvisited(loadouts: Seq<LoadoutView>, chain: Seq<int>) -> Set<int> {
    Set::new(|i: int| 0 <= i < loadouts.len() && !chain.contains(i))
}

/// The walk up the parents, from the loadout called `name`, with the
/// loadouts met so far in `chain`, the latest first. It ends with the whole
/// chain at a loadout without a parent, and fails at a name that no loadout
/// has and at a loadout that is on the chain already.
pub open spec fn walk(loadouts: Seq<LoadoutView>, name: Seq<char>, chain: Seq<int>) -> Result<
    Seq<int>,
    Failure,
>
    decreases unvisited(loadouts, chain).len(),
{
    match lookup(loadouts, name) {
        None => Err(Failure::UnknownLoadout { name }),
        Some(i) => if chain.contains(i) {
            Err(Failure::CyclicInheritance { name })
        } else {
            match loadouts[i].parent {
                None => Ok(seq![i] + chain),
                Some(parent) => {
                    proof {
                        lemma_lookup(loadouts, name);
                        lemma_unvisited_shrinks(loadouts, chain, i);
                    }
                    walk(loadouts, parent, seq![i] + chain)
                },
            }
        },
    }
}

/// The chain of the loadout called `name`, as indices into `loadouts`: its
/// topmost ancestor first, itself last.
pub open spec fn resolve(loadouts: Seq<LoadoutView>, name: Seq<char>) -> Result<Seq<int>, Failure> {
    walk(loadouts, name, Seq::empty())
}

/// What `lookup` finds is the first loadout of that name, and it finds one
/// where there is any.
pub proof fn lemma_lookup(loadouts: Seq<LoadoutView>, name: Seq<char>)
    ensures
        match lookup(loadouts, name) {
            Some(i) => 0 <= i < loadouts.len() && loadouts[i].name == name && forall|j: int|
                0 <= j < i ==> (#[trigger] loadouts[j]).name != name,
            None => forall|j: int|
                0 <= j < loadouts.len() ==> (#[trigger] loadouts[j]).name != name,
        },
{
    let ns = names(loadouts);
    ns.index_of_first_ensures(name);
    match lookup(loadouts, name) {
        Some(i) => {
            assert forall|j: int| 0 <= j < i implies (#[trigger] loadouts[j]).name != name by {
                assert(ns[j] != name);
            }
        },
        None => {
            assert forall|j: int| 0 <= j < loadouts.len() implies (#[trigger] loadouts[j]).name
                != name by {
                assert(ns[j] == loadouts[j].name);
            }
        },
    }
}

/// Putting a loadout on the chain that was not on it leaves fewer loadouts
/// off the chain.
pub proof fn lemma_unvisited_shrinks(loadouts: Seq<LoadoutView>, chain: Seq<int>, i: int)
    requires
        0 <= i < loadouts.len(),
        !chain.contains(i),
    ensures
        unvisited(loadouts, chain).finite(),
        unvisited(loadouts, seq![i] + chain).len() < unvisited(loadouts, chain).len(),
{
    let all = Set::new(|k: int| 0 <= k < loadouts.len());
    let before = unvisited(loadouts, chain);
    let after = unvisited(loadouts, seq![i] + chain);
    vstd::set_lib::lemma_int_range(0, loadouts.len() as int);
    assert(all =~= vstd::set_lib::set_int_range(0, loadouts.len() as int));
    vstd::set_lib::lemma_len_subset(before, all);
    assert(before.contains(i));
    assert forall|k: int| after.contains(k) <==> before.remove(i).contains(k) by {
        let longer = seq![i] + chain;
        if chain.contains(k) {
            let at = choose|at: int| 0 <= at < chain.len() && chain[at] == k;
            assert(longer[at + 1] == k);
        }
        if longer.contains(k) && k != i {
            let at = choose|at: int| 0 <= at < longer.len() && longer[at] == k;
            assert(chain[at - 1] == k);
        }
        assert(longer[0] == i);
    }
    assert(after =~= before.remove(i));
}

/// The loadout that the loadout at `place` names as its parent, if it names
/// one that exists.
pub open spec fn parent_of(loadouts: Seq<LoadoutView>, place: int) -> Option<int> {
    match loadouts[place].parent {
        Some(parent) => lookup(loadouts, parent),
        None => None,
    }
}

/// In `chain`, each loadout but the last is what the next one names as its
/// parent.
pub open spec fn linked(loadouts: Seq<LoadoutView>, chain: Seq<int>) -> bool {
    forall|k: int|
        0 <= k < chain.len() - 1 ==> #[trigger] parent_of(loadouts, chain[k + 1]) == Some(chain[k])
}

/// A walk that ends well has put new loadouts before the chain it began
/// with: the first of them has no parent, each other names the one before
/// it as its parent, and the last of them is the loadout called `name`.
proof fn lemma_walk_ok(loadouts: Seq<LoadoutView>, name: Seq<char>, chain: Seq<int>)
    requires
        walk(loadouts, name, chain) is Ok,
    ensures
        ({
            let whole = walk(loadouts, name, chain)->Ok_0;
            let fresh = whole.len() - chain.len();
            &&& fresh > 0
            &&& whole.subrange(fresh, whole.len() as int) == chain
            &&& lookup(loadouts, name) == Some(whole[fresh - 1])
            &&& loadouts[whole[0]].parent is None
            &&& linked(loadouts, whole.subrange(0, fresh))
            &&& forall|k: int|
                0 <= k < fresh ==> 0 <= #[trigger] whole[k] < loadouts.len() && !chain.contains(
                    whole[k],
                )
            &&& whole.subrange(0, fresh).no_duplicates()
        }),
    decreases unvisited(loadouts, chain).len(),
{
    lemma_lookup(loadouts, name);
    let i = lookup(loadouts, name)->Some_0;
    let longer = seq![i] + chain;
    let whole = walk(loadouts, name, chain)->Ok_0;
    match loadouts[i].parent {
        None => {
            assert(whole.subrange(1, whole.len() as int) =~= chain);
        },
        Some(parent) => {
            lemma_unvisited_shrinks(loadouts, chain, i);
            lemma_walk_ok(loadouts, parent, longer);
            let fresh = whole.len() - chain.len();
            let front = whole.subrange(0, fresh);
            let shorter = whole.subrange(0, fresh - 1);
            assert(whole.subrange(fresh - 1, whole.len() as int) == longer);
            assert(whole[fresh - 1] == longer[0]);
            assert(whole.subrange(fresh, whole.len() as int) =~= chain) by {
                assert forall|k: int| 0 <= k < chain.len() implies whole[fresh + k] == chain[k] by {
                    assert(whole[fresh + k] == whole.subrange(fresh - 1, whole.len() as int)[k + 1]);
                    assert(longer[k + 1] == chain[k]);
                }
            }
            assert forall|k: int| 0 <= k < fresh implies 0 <= #[trigger] whole[k] < loadouts.len()
                && !chain.contains(whole[k]) by {
                if k < fresh - 1 {
                    assert(!longer.contains(whole[k]));
                    if chain.contains(whole[k]) {
                        let at = choose|at: int| 0 <= at < chain.len() && chain[at] == whole[k];
                        assert(longer[at + 1] == whole[k]);
                    }
                }
            }
            assert(linked(loadouts, front)) by {
                assert forall|k: int| 0 <= k < front.len() - 1 implies #[trigger] parent_of(
                    loadouts,
                    front[k + 1],
                ) == Some(front[k]) by {
                    if k < fresh - 2 {
                        assert(shorter[k + 1] == front[k + 1]);
                        assert(shorter[k] == front[k]);
                        assert(parent_of(loadouts, shorter[k + 1]) == Some(shorter[k]));
                    }
                }
            }
            assert(front.no_duplicates()) by {
                assert forall|a: int, b: int|
                    0 <= a < front.len() && 0 <= b < front.len() && a != b implies front[a]
                    != front[b] by {
                    if a < fresh - 1 && b < fresh - 1 {
                        assert(shorter[a] != shorter[b]);
                    } else {
                        let other = if a < fresh - 1 {
                            a
                        } else {
                            b
                        };
                        assert(!longer.contains(whole[other]));
                        assert(longer[0] == i);
                    }
                }
            }
        },
    }
}

/// A chain that `resolve` gives ends with the loadout that was asked for,
/// begins with a loadout without a parent, goes from each loadout to the one
/// that names it as its parent, and holds no loadout twice.
pub proof fn lemma_resolved_chain(loadouts: Seq<LoadoutView>, name: Seq<char>)
    requires
        resolve(loadouts, name) is Ok,
    ensures
        ({
            let chain = resolve(loadouts, name)->Ok_0;
            &&& chain.len() > 0
            &&& lookup(loadouts, name) == Some(chain.last())
            &&& loadouts[chain[0]].parent is None
            &&& linked(loadouts, chain)
            &&& chain.no_duplicates()
            &&& forall|k: int| 0 <= k < chain.len() ==> 0 <= #[trigger] chain[k] < loadouts.len()
        }),
{
    lemma_walk_ok(loadouts, name, Seq::empty());
    let chain = resolve(loadouts, name)->Ok_0;
    assert(chain.subrange(0, chain.len() as int) =~= chain);
}

/// A walk fails in one of two ways only: with `UnknownLoadout` for a name
/// that no loadout has, or with `CyclicInheritance` for the name of a
/// loadout.
proof fn lemma_walk_failures(loadouts: Seq<LoadoutView>, name: Seq<char>, chain: Seq<int>)
    requires
        walk(loadouts, name, chain) is Err,
    ensures
        match walk(loadouts, name, chain)->Err_0 {
            Failure::UnknownLoadout { name: missing } => lookup(loadouts, missing) is None,
            Failure::CyclicInheritance { name: met } => lookup(loadouts, met) is Some,
            _ => false,
        },
    decreases unvisited(loadouts, chain).len(),
{
    lemma_lookup(loadouts, name);
    match lookup(loadouts, name) {
        None => {},
        Some(i) => {
            if !chain.contains(i) {
                lemma_unvisited_shrinks(loadouts, chain, i);
                lemma_walk_failures(loadouts, loadouts[i].parent->Some_0, seq![i] + chain);
            }
        },
    }
}

/// Resolving fails in one of two ways only: with `UnknownLoadout` for a
/// name that no loadout has, or with `CyclicInheritance` for the name of a
/// loadout.
pub proof fn lemma_resolve_failures(loadouts: Seq<LoadoutView>, name: Seq<char>)
    requires
        resolve(loadouts, name) is Err,
    ensures
        match resolve(loadouts, name)->Err_0 {
            Failure::UnknownLoadout { name: missing } => lookup(loadouts, missing) is None,
            Failure::CyclicInheritance { name: met } => lookup(loadouts, met) is Some,
            _ => false,
        },
{
    lemma_walk_failures(loadouts, name, Seq::empty());
}

/// The chain of a loadout without a parent holds that loadout alone.
pub proof fn lemma_resolve_without_parent(loadouts: Seq<LoadoutView>, name: Seq<char>)
    requires
        lookup(loadouts, name) matches Some(i) && loadouts[i].parent is None,
    ensures
        resolve(loadouts, name) == Ok::<Seq<int>, Failure>(seq![lookup(loadouts, name)->Some_0]),
{
    let i = lookup(loadouts, name)->Some_0;
    assert(!Seq::<int>::empty().contains(i));
    assert(seq![i] + Seq::<int>::empty() =~= seq![i]);
}

/// A name that no loadout has resolves to `UnknownLoadout`.
pub proof fn lemma_resolve_unknown(loadouts: Seq<LoadoutView>, name: Seq<char>)
    requires
        forall|j: int| 0 <= j < loadouts.len() ==> (#[trigger] loadouts[j]).name != name,
    ensures
        resolve(loadouts, name) == Err::<Seq<int>, Failure>(Failure::UnknownLoadout { name }),
{
    lemma_lookup(loadouts, name);
}

/// A loadout whose parent has that loadout as its own parent resolves to
/// `CyclicInheritance`. (The two may be one loadout that names itself.)
pub proof fn lemma_resolve_two_cycle(
    loadouts: Seq<LoadoutView>,
    child: Seq<char>,
    parent: Seq<char>,
)
    requires
        lookup(loadouts, child) matches Some(i) && loadouts[i].parent == Some(parent),
        lookup(loadouts, parent) matches Some(j) && loadouts[j].parent == Some(child),
    ensures
        resolve(loadouts, child) == Err::<Seq<int>, Failure>(
            Failure::CyclicInheritance { name: child },
        ),
{
    let i = lookup(loadouts, child)->Some_0;
    let j = lookup(loadouts, parent)->Some_0;
    let empty = Seq::<int>::empty();
    lemma_lookup(loadouts, child);
    lemma_lookup(loadouts, parent);
    assert(!empty.contains(i));
    let first = seq![i] + empty;
    assert(first[0] == i);
    assert(walk(loadouts, child, empty) == walk(loadouts, parent, first));
    if j == i {
        assert(first.contains(j));
        assert(child == parent);
    } else {
        assert(!first.contains(j));
        let second = seq![j] + first;
        assert(second[1] == i);
        assert(second.contains(i));
        assert(walk(loadouts, parent, first) == walk(loadouts, child, second));
    }
}

/// The name that the walk from `name` looks up after `steps` steps up the
/// parents, if it gets that far.
pub open spec fn ancestor_name(loadouts: Seq<LoadoutView>, name: Seq<char>, steps: nat) -> Option<
    Seq<char>,
>
    decreases steps, 0nat,
{
    if steps == 0 {
        Some(name)
    } else {
        match ancestor(loadouts, name, (steps - 1) as nat) {
            Some(place) => loadouts[place].parent,
            None => None,
        }
    }
}

/// The loadout that the walk from `name` meets after `steps` steps up the
/// parents, if it gets that far.
pub open spec fn ancestor(loadouts: Seq<LoadoutView>, name: Seq<char>, steps: nat) -> Option<int>
    decreases steps, 1nat,
{
    match ancestor_name(loadouts, name, steps) {
        Some(found) => lookup(loadouts, found),
        None => None,
    }
}

/// A walk that gets as far as `far` steps got as far as any step before.
proof fn lemma_ancestors_before(loadouts: Seq<LoadoutView>, name: Seq<char>, far: nat, steps: nat)
    requires
        steps <= far,
        ancestor(loadouts, name, far) is Some,
    ensures
        ancestor(loadouts, name, steps) is Some,
        ancestor_name(loadouts, name, steps) is Some,
    decreases far - steps,
{
    if steps < far {
        lemma_ancestors_before(loadouts, name, far, steps + 1);
    }
}

/// A walk that would come back to a loadout fails with `CyclicInheritance`
/// from wherever it stands before.
proof fn lemma_walk_cycle(
    loadouts: Seq<LoadoutView>,
    name: Seq<char>,
    first: nat,
    second: nat,
    steps: nat,
    chain: Seq<int>,
)
    requires
        first < second,
        steps <= second,
        ancestor(loadouts, name, first) is Some,
        ancestor(loadouts, name, first) == ancestor(loadouts, name, second),
        chain.len() == steps,
        forall|j: int|
            0 <= j < steps ==> Some(#[trigger] chain[j]) == ancestor(
                loadouts,
                name,
                (steps - 1 - j) as nat,
            ),
    ensures
        ancestor_name(loadouts, name, steps) is Some,
        walk(loadouts, ancestor_name(loadouts, name, steps)->Some_0, chain) is Err,
        walk(
            loadouts,
            ancestor_name(loadouts, name, steps)->Some_0,
            chain,
        )->Err_0 is CyclicInheritance,
    decreases second - steps,
{
    lemma_ancestors_before(loadouts, name, second, steps);
    let current = ancestor_name(loadouts, name, steps)->Some_0;
    let place = ancestor(loadouts, name, steps)->Some_0;
    lemma_lookup(loadouts, current);
    if !chain.contains(place) {
        if steps == second {
            assert(chain[steps - 1 - first] == place);
        }
        lemma_ancestors_before(loadouts, name, second, steps + 1);
        let longer = seq![place] + chain;
        assert forall|j: int| 0 <= j < steps + 1 implies Some(#[trigger] longer[j]) == ancestor(
            loadouts,
            name,
            (steps - j) as nat,
        ) by {
            if j > 0 {
                assert(longer[j] == chain[j - 1]);
            }
        }
        lemma_unvisited_shrinks(loadouts, chain, place);
        lemma_walk_cycle(loadouts, name, first, second, steps + 1, longer);
    }
}

/// A loadout whose walk up the parents comes back to a loadout that it has
/// met resolves to `CyclicInheritance`: a loadout that is its own ancestor,
/// or has such an ancestor, has no chain.
pub proof fn lemma_resolve_cycle(
    loadouts: Seq<LoadoutView>,
    name: Seq<char>,
    first: nat,
    second: nat,
)
    requires
        first < second,
        ancestor(loadouts, name, first) is Some,
        ancestor(loadouts, name, first) == ancestor(loadouts, name, second),
    ensures
        resolve(loadouts, name) is Err,
        resolve(loadouts, name)->Err_0 is CyclicInheritance,
{
    lemma_walk_cycle(loadouts, name, first, second, 0, Seq::empty());
}

/// A walk that has come back to a loadout goes round from there on: it
/// meets after any further steps what it met that many steps after the
/// first time.
proof fn lemma_walk_repeats(
    loadouts: Seq<LoadoutView>,
    name: Seq<char>,
    first: nat,
    second: nat,
    further: nat,
)
    requires
        first < second,
        ancestor(loadouts, name, first) is Some,
        ancestor(loadouts, name, first) == ancestor(loadouts, name, second),
    ensures
        ancestor(loadouts, name, first + further) == ancestor(loadouts, name, second + further),
    decreases further,
{
    if further > 0 {
        lemma_walk_repeats(loadouts, name, first, second, (further - 1) as nat);
        assert(ancestor_name(loadouts, name, first + further) == ancestor_name(
            loadouts,
            name,
            second + further,
        ));
    }
}

/// A walk that comes to a name that no loadout has fails with
/// `UnknownLoadout` from wherever it stands before.
proof fn lemma_walk_dangling(
    loadouts: Seq<LoadoutView>,
    name: Seq<char>,
    last: nat,
    steps: nat,
    chain: Seq<int>,
)
    requires
        steps <= last,
        ancestor_name(loadouts, name, last) is Some,
        ancestor(loadouts, name, last) is None,
        chain.len() == steps,
        forall|j: int|
            0 <= j < steps ==> Some(#[trigger] chain[j]) == ancestor(
                loadouts,
                name,
                (steps - 1 - j) as nat,
            ),
    ensures
        ancestor_name(loadouts, name, steps) is Some,
        walk(loadouts, ancestor_name(loadouts, name, steps)->Some_0, chain) == Err::<
            Seq<int>,
            Failure,
        >(Failure::UnknownLoadout { name: ancestor_name(loadouts, name, last)->Some_0 }),
    decreases last - steps,
{
    if steps < last {
        lemma_ancestors_before(loadouts, name, (last - 1) as nat, steps);
        let current = ancestor_name(loadouts, name, steps)->Some_0;
        let place = ancestor(loadouts, name, steps)->Some_0;
        lemma_lookup(loadouts, current);
        if chain.contains(place) {
            let at = choose|at: int| 0 <= at < chain.len() && chain[at] == place;
            let before = (steps - 1 - at) as nat;
            let back = (last - (steps - before)) as nat;
            lemma_walk_repeats(loadouts, name, before, steps, (last - steps) as nat);
            lemma_ancestors_before(loadouts, name, (last - 1) as nat, back);
            assert(before + (last - steps) == back);
        } else {
            let longer = seq![place] + chain;
            assert forall|j: int| 0 <= j < steps + 1 implies Some(#[trigger] longer[j])
                == ancestor(loadouts, name, (steps - j) as nat) by {
                if j > 0 {
                    assert(longer[j] == chain[j - 1]);
                }
            }
            lemma_unvisited_shrinks(loadouts, chain, place);
            lemma_walk_dangling(loadouts, name, last, steps + 1, longer);
        }
    }
}

/// A loadout whose walk up the parents comes to a name that no loadout has
/// resolves to `UnknownLoadout` with that name: its own name, or the name
/// of the parent that one of its ancestors asks for in vain.
pub proof fn lemma_resolve_dangling(loadouts: Seq<LoadoutView>, name: Seq<char>, steps: nat)
    requires
        ancestor_name(loadouts, name, steps) is Some,
        ancestor(loadouts, name, steps) is None,
    ensures
        resolve(loadouts, name) == Err::<Seq<int>, Failure>(
            Failure::UnknownLoadout { name: ancestor_name(loadouts, name, steps)->Some_0 },
        ),
{
    lemma_walk_dangling(loadouts, name, steps, 0, Seq::empty());
}

/// The indices of `visited`, as integers.
pub open spec fn indices(visited: Seq<usize>) -> Seq<int> {
    visited.map_values(|i: usize| i as int)
}

/// The loadouts of `loadouts` at the places that `chain` names.
pub open spec fn views_at(loadouts: Seq<LoadoutView>, chain: Seq<int>) -> Seq<LoadoutView> {
    chain.map_values(|i: int| loadouts[i])
}

/// What a chain of loadouts says, one view for each.
pub open spec fn views(chain: Seq<&Loadout>) -> Seq<LoadoutView> {
    chain.map_values(|l: &Loadout| l@)
}

/// The loadouts that a chain refers to.
pub open spec fn referents(chain: Seq<&Loadout>) -> Seq<Loadout> {
    chain.map_values(|l: &Loadout| *l)
}

/// The loadouts of `loadouts` at the places that `chain` names.
pub open spec fn loadouts_at(loadouts: Seq<Loadout>, chain: Seq<int>) -> Seq<Loadout> {
    chain.map_values(|i: int| loadouts[i])
}

/// The index of the first loadout of the config called `name`.
fn find_loadout(config: &LoadoutsConfig, name: &String) -> (found: Option<usize>)
    ensures
        match found {
            Some(i) => lookup(config@.loadouts, name@) == Some(i as int) && i
                < config.loadouts.len(),
            None => lookup(config@.loadouts, name@) is None,
        },
{
    let ghost ns = names(config@.loadouts);
    let mut i: usize = 0;
    while i < config.loadouts.len()
        invariant
            i <= config.loadouts.len(),
            ns == names(config@.loadouts),
            forall|j: int| 0 <= j < i ==> ns[j] != name@,
        decreases config.loadouts.len() - i,
    {
        if config.loadouts[i].name == *name {
            proof {
                assert(ns[i as int] == name@);
                lemma_first_index(ns, name@, i as int);
            }
            return Some(i);
        }
        i += 1;
    }
    proof {
        lemma_no_index(ns, name@);
    }
    None
}

/// Tells whether `index` is among `visited`.
fn is_visited(visited: &Vec<usize>, index: usize) -> (found: bool)
    ensures
        found == indices(visited@).contains(index as int),
{
    let mut k: usize = 0;
    while k < visited.len()
        invariant
            k <= visited.len(),
            forall|j: int| 0 <= j < k ==> indices(visited@)[j] != index as int,
        decreases visited.len() - k,
    {
        if visited[k] == index {
            assert(indices(visited@)[k as int] == index as int);
            return true;
        }
        k += 1;
    }
    false
}

/// Builds the chain of the loadout called `loadout_name`: its topmost
/// ancestor first, then each child of the one before, the loadout itself
/// last.
///
/// The walk starts at the first loadout of that name and goes from each
/// loadout to the first one that has the name of its parent. It fails with
/// `UnknownLoadout` at a name that no loadout has, and with
/// `CyclicInheritance` at a loadout that it has met before.
pub fn resolve_chain<'a>(config: &'a LoadoutsConfig, loadout_name: &str) -> (result: Result<
    Vec<&'a Loadout>,
    LoadoutError,
>)
    ensures
        match result {
            Ok(chain) => {
                &&& resolve(config@.loadouts, loadout_name@) matches Ok(places)
                &&& referents(chain@) == loadouts_at(config.loadouts@, places)
                &&& views(chain@) == views_at(config@.loadouts, places)
            },
            Err(e) => resolve(config@.loadouts, loadout_name@) == Err::<Seq<int>, Failure>(e@),
        },
{
    let ghost loadouts = config@.loadouts;
    let mut chain: Vec<&Loadout> = Vec::new();
    let mut visited: Vec<usize> = Vec::new();
    let mut search: String = loadout_name.to_owned();
    assert(indices(visited@) =~= Seq::<int>::empty());
    loop
        invariant
            loadouts == config@.loadouts,
            walk(loadouts, search@, indices(visited@)) == resolve(loadouts, loadout_name@),
            chain@.len() == visited@.len(),
            views(chain@) == views_at(loadouts, indices(visited@)),
            referents(chain@) == loadouts_at(config.loadouts@, indices(visited@)),
        decreases unvisited(loadouts, indices(visited@)).len(),
    {
        let found = find_loadout(config, &search);
        match found {
            None => {
                return Err(LoadoutError::UnknownLoadout { name: search });
            },
            Some(i) => {
                if is_visited(&visited, i) {
                    return Err(LoadoutError::CyclicInheritance { name: search });
                }
                let ghost before = indices(visited@);
                let ghost chain_before = chain@;
                proof {
                    lemma_unvisited_shrinks(loadouts, before, i as int);
                }
                let loadout = &config.loadouts[i];
                visited.insert(0, i);
                chain.insert(0, loadout);
                proof {
                    assert(indices(visited@) =~= seq![i as int] + before);
                    assert(loadouts[i as int] == loadout@);
                    assert forall|k: int| 0 <= k < chain@.len() implies views(chain@)[k] == views_at(
                        loadouts,
                        indices(visited@),
                    )[k] by {
                        if k > 0 {
                            assert(chain@[k] == chain_before[k - 1]);
                            assert(indices(visited@)[k] == before[k - 1]);
                            assert(views(chain_before)[k - 1] == views_at(loadouts, before)[k - 1]);
                        }
                    }
                    assert(views(chain@) =~= views_at(loadouts, indices(visited@)));
                    assert forall|k: int| 0 <= k < chain@.len() implies referents(chain@)[k]
                        == loadouts_at(config.loadouts@, indices(visited@))[k] by {
                        if k > 0 {
                            assert(chain@[k] == chain_before[k - 1]);
                            assert(indices(visited@)[k] == before[k - 1]);
                            assert(referents(chain_before)[k - 1] == loadouts_at(
                                config.loadouts@,
                                before,
                            )[k - 1]);
                        }
                    }
                    assert(referents(chain@) =~= loadouts_at(config.loadouts@, indices(visited@)));
                }
                match &loadout.parent {
                    None => {
                        return Ok(chain);
                    },
                    Some(parent) => {
                        search = parent.clone();
                    },
                }
            },
        }
    }
}

} // verus!
