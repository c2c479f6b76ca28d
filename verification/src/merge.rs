//! The mapping merger: from a chain of loadouts to one mapping from target
//! identifiers to source paths.

use vstd::prelude::*;

use crate::config::Loadout;
use crate::config::LoadoutView;
use crate::files::as_map;
use crate::files::keys;
use crate::files::lemma_first_index;
use crate::files::lemma_no_index;
use crate::files::lemma_put;
use crate::files::put;
use crate::files::Entries;
use crate::files::FileMap;
use crate::files::ResolvedMapping;
use crate::resolve::referents;
use crate::resolve::views;

verus! {

/// The mapping that a chain of loadouts comes to, the chain's topmost
/// ancestor first: every target that one of them names, with the path from
/// the last loadout that names it.
pub open spec fn merged(chain: Seq<LoadoutView>) -> Map<Seq<char>, Seq<char>>
    decreases chain.len(),
{
    if chain.len() == 0 {
        Map::empty()
    } else {
        merged(chain.drop_last()).union_prefer_right(chain.last().files)
    }
}

/// The entries of `base` after each entry of `more` was set in it, in the
/// order of `more`.
pub open spec fn put_all(base: Entries, more: Entries) -> Entries
    decreases more.len(),
{
    if more.len() == 0 {
        base
    } else {
        put(put_all(base, more.drop_last()), more.last().0, more.last().1)
    }
}

/// The entries that a chain of loadouts comes to: the entries of each
/// loadout set in turn, the topmost ancestor's first. A target stands where
/// it was first named, with the path from the last loadout that names it.
pub open spec fn merged_entries(chain: Seq<Loadout>) -> Entries
    decreases chain.len(),
{
    if chain.len() == 0 {
        Seq::empty()
    } else {
        put_all(merged_entries(chain.drop_last()), chain.last().files.entries())
    }
}

/// The merged mapping holds a target exactly where a loadout of the chain
/// names it.
pub proof fn lemma_merged_targets(chain: Seq<LoadoutView>, target: Seq<char>)
    ensures
        merged(chain).contains_key(target) <==> exists|i: int|
            0 <= i < chain.len() && (#[trigger] chain[i]).files.contains_key(target),
    decreases chain.len(),
{
    if chain.len() > 0 {
        let rest = chain.drop_last();
        lemma_merged_targets(rest, target);
        if merged(rest).contains_key(target) {
            let i = choose|i: int|
                0 <= i < rest.len() && (#[trigger] rest[i]).files.contains_key(target);
            assert(chain[i].files.contains_key(target));
        }
        if exists|i: int| 0 <= i < chain.len() && (#[trigger] chain[i]).files.contains_key(target) {
            let i = choose|i: int|
                0 <= i < chain.len() && (#[trigger] chain[i]).files.contains_key(target);
            if i < chain.len() - 1 {
                assert(rest[i].files.contains_key(target));
            }
        }
    }
}

/// Where the loadout at `place` names a target and no loadout after it in
/// the chain does, the merged mapping has the path of that loadout: an
/// ancestor never overrides the choice of a descendant.
pub proof fn lemma_merged_nearest_wins(chain: Seq<LoadoutView>, place: int, target: Seq<char>)
    requires
        0 <= place < chain.len(),
        chain[place].files.contains_key(target),
        forall|j: int|
            place < j < chain.len() ==> !(#[trigger] chain[j]).files.contains_key(target),
    ensures
        merged(chain).contains_key(target),
        merged(chain)[target] == chain[place].files[target],
    decreases chain.len(),
{
    if place < chain.len() - 1 {
        let rest = chain.drop_last();
        assert(!chain[chain.len() - 1].files.contains_key(target));
        assert forall|j: int| place < j < rest.len() implies !(#[trigger] rest[j]).files.contains_key(
            target,
        ) by {
            assert(rest[j] == chain[j]);
        }
        lemma_merged_nearest_wins(rest, place, target);
    }
}

/// Setting in turn each of the first `count` entries of `entries`, which
/// hold no identifier twice, gives those entries.
proof fn lemma_take_next(entries: Entries, count: int)
    requires
        keys(entries).no_duplicates(),
        0 <= count < entries.len(),
    ensures
        keys(entries.take(count)).no_duplicates(),
        put(entries.take(count), entries[count].0, entries[count].1) == entries.take(count + 1),
{
    let head = entries.take(count);
    let key = entries[count].0;
    assert forall|a: int, b: int|
        0 <= a < head.len() && 0 <= b < head.len() && a != b implies keys(head)[a] != keys(
        head,
    )[b] by {
        assert(keys(entries)[a] != keys(entries)[b]);
    }
    assert forall|j: int| 0 <= j < keys(head).len() implies keys(head)[j] != key by {
        assert(keys(entries)[j] != keys(entries)[count]);
    }
    lemma_no_index(keys(head), key);
    assert(head.push(entries[count]) =~= entries.take(count + 1));
}

/// Flattens a chain of loadouts, its topmost ancestor first, into one
/// mapping. Each loadout's entries overwrite what the loadouts before it
/// have set.
pub fn merge(chain: &Vec<&Loadout>) -> (mapping: ResolvedMapping)
    ensures
        mapping@ == merged(views(chain@)),
        mapping.entries() == merged_entries(referents(chain@)),
        keys(mapping.entries()).no_duplicates(),
{
    let ghost all = views(chain@);
    let ghost loadouts = referents(chain@);
    let mut mapping = FileMap::new();
    let mut i: usize = 0;
    while i < chain.len()
        invariant
            i <= chain.len(),
            all == views(chain@),
            loadouts == referents(chain@),
            mapping@ == merged(all.take(i as int)),
            mapping.entries() == merged_entries(loadouts.take(i as int)),
            keys(mapping.entries()).no_duplicates(),
        decreases chain.len() - i,
    {
        let loadout = chain[i];
        let ghost base = mapping@;
        let ghost base_entries = mapping.entries();
        let ghost entries = loadout.files.entries();
        let count = loadout.files.len();
        let mut j: usize = 0;
        assert(base.union_prefer_right(as_map(entries.take(0))) =~= base);
        while j < count
            invariant
                j <= count,
                count == entries.len(),
                entries == loadout.files.entries(),
                keys(entries).no_duplicates(),
                keys(mapping.entries()).no_duplicates(),
                mapping@ == base.union_prefer_right(as_map(entries.take(j as int))),
                mapping.entries() == put_all(base_entries, entries.take(j as int)),
            decreases count - j,
        {
            match loadout.files.entry(j) {
                Some((key, value)) => {
                    proof {
                        lemma_take_next(entries, j as int);
                        lemma_put(entries.take(j as int), key@, value@);
                        assert(entries.take(j as int + 1).drop_last() =~= entries.take(j as int));
                        assert(entries.take(j as int + 1).last() == (key@, value@));
                        assert(base.union_prefer_right(as_map(entries.take(j as int))).insert(
                            key@,
                            value@,
                        ) =~= base.union_prefer_right(
                            as_map(entries.take(j as int)).insert(key@, value@),
                        ));
                    }
                    mapping.insert(key.clone(), value.clone());
                },
                None => {},
            }
            j += 1;
        }
        proof {
            assert(entries.take(count as int) =~= entries);
            assert(all.take(i as int + 1).drop_last() =~= all.take(i as int));
            assert(all.take(i as int + 1).last() == loadout@);
            assert(loadouts.take(i as int + 1).drop_last() =~= loadouts.take(i as int));
            assert(loadouts.take(i as int + 1).last() == *loadout);
        }
        i += 1;
    }
    assert(all.take(chain.len() as int) =~= all);
    assert(loadouts.take(chain.len() as int) =~= loadouts);
    mapping
}

} // verus!
