//! An idealised filesystem, and what the reconciler does to it.
//!
//! The filesystem is a flat table from paths to what is there. It answers
//! every probe truthfully, removes every symbolic link that it is asked to
//! remove, and creates every link that it is asked to create at a free
//! path. On it the reconciler can be run from beginning to end in a proof.

use vstd::prelude::*;

use crate::error::Failure;
use crate::files::as_map;
use crate::files::keys;
use crate::files::lemma_as_map_entries;
use crate::reconcile::Event;
use crate::reconcile::Fault;
use crate::reconcile::LinkKind;
use crate::reconcile::Plan;
use crate::reconcile::Request;
use crate::reconcile::SourceProbe;
use crate::reconcile::Stage;
use crate::reconcile::State;
use crate::reconcile::TargetProbe;

verus! {

/// What there is at a path.
pub enum Node {
    File { contents: Seq<u8> },
    Directory,
    Link { to: Seq<char>, kind: LinkKind },
}

/// A filesystem: the paths at which there is something, each with what is
/// there.
pub type Disk = Map<Seq<char>, Node>;

/// What a probe of a source path finds.
pub open spec fn probe_source(disk: Disk, path: Seq<char>) -> SourceProbe {
    if !disk.contains_key(path) {
        SourceProbe::Missing
    } else if disk[path] is Directory {
        SourceProbe::Directory
    } else {
        SourceProbe::File
    }
}

/// What a probe of a target path finds.
pub open spec fn probe_target(disk: Disk, path: Seq<char>) -> TargetProbe {
    if !disk.contains_key(path) {
        TargetProbe::Absent
    } else if disk[path] is Link {
        TargetProbe::Link
    } else {
        TargetProbe::Other
    }
}

/// The kind of link that points to what is at `path`.
pub open spec fn kind_for(disk: Disk, path: Seq<char>) -> LinkKind {
    if probe_source(disk, path) == SourceProbe::Directory {
        LinkKind::Directory
    } else {
        LinkKind::File
    }
}

/// The filesystem after it has done what `request` asks for, and what it
/// reports. Nothing is done and reported where the request is to finish.
pub open spec fn perform(disk: Disk, request: Request) -> Option<(Disk, Event)> {
    match request {
        Request::ProbeSource { path } => Some(
            (disk, Event::SourceProbed { source: probe_source(disk, path) }),
        ),
        Request::ProbeTarget { path } => Some(
            (disk, Event::TargetProbed { target: probe_target(disk, path) }),
        ),
        Request::RemoveLink { path } => if probe_target(disk, path) == TargetProbe::Link {
            Some((disk.remove(path), Event::LinkRemoved { removed: true }))
        } else {
            Some((disk, Event::LinkRemoved { removed: false }))
        },
        Request::CreateLink { source, target, kind } => if disk.contains_key(target) {
            Some((disk, Event::LinkCreated { created: false }))
        } else {
            Some(
                (disk.insert(target, Node::Link { to: source, kind }), Event::LinkCreated {
                    created: true,
                }),
            )
        },
        Request::Finish { .. } => None,
    }
}

/// A bound on the number of requests that the reconciler still makes.
pub open spec fn work_left(plan: Plan, state: State) -> nat {
    let entries = if plan.entries.len() - state.place > 1 {
        plan.entries.len() - state.place
    } else {
        1
    };
    match state.stage {
        Stage::ProbingSource => (4 * entries) as nat,
        Stage::ProbingTarget { .. } => (4 * entries - 1) as nat,
        Stage::RemovingLink { .. } => (4 * entries - 2) as nat,
        Stage::CreatingLink { .. } => (4 * entries - 3) as nat,
        Stage::Finished | Stage::Failed { .. } => 0,
    }
}

/// The reconciler run on the filesystem from `state` until it finishes: the
/// state in which it ends, and the filesystem that it leaves.
pub open spec fn run(plan: Plan, state: State, disk: Disk) -> (State, Disk)
    decreases work_left(plan, state),
{
    match perform(disk, plan.request(state)) {
        None => (state, disk),
        Some((after, event)) => run(plan, plan.next(state, event), after),
    }
}

/// What applying the plan does to the filesystem: how it ends, and the
/// filesystem that it leaves.
pub open spec fn apply(plan: Plan, disk: Disk) -> (State, Disk) {
    run(plan, plan.enter(0), disk)
}

/// The state in which the reconciler has given up at `place` for `fault`.
pub open spec fn failed(place: int, fault: Fault) -> State {
    State { place, stage: Stage::Failed { fault } }
}

/// The link that putting an entry in place leaves at its target path.
pub open spec fn link_to(disk: Disk, source: Seq<char>) -> Node {
    Node::Link { to: source, kind: kind_for(disk, source) }
}

/// The plan has an entry at `place`, and the config defines its target.
pub open spec fn workable(plan: Plan, place: int) -> bool {
    0 <= place < plan.entries.len() && plan.targets.contains_key(plan.entries[place].0)
}

/// At `path` the two filesystems hold the same.
pub open spec fn same_at(a: Disk, b: Disk, path: Seq<char>) -> bool {
    a.contains_key(path) == b.contains_key(path) && (a.contains_key(path) ==> a[path] == b[path])
}

/// What putting one entry in place does to the filesystem: nothing where
/// the source is missing or the target path holds something that is not a
/// symbolic link, and otherwise a link to the source at the target path.
pub open spec fn relink(disk: Disk, source: Seq<char>, target: Seq<char>) -> (Option<Fault>, Disk) {
    if probe_source(disk, source) == SourceProbe::Missing {
        (Some(Fault::MissingSource), disk)
    } else if probe_target(disk, target) == TargetProbe::Other {
        (Some(Fault::TargetNotOwned), disk)
    } else {
        (None, disk.insert(target, link_to(disk, source)))
    }
}

/// What putting the entries from `place` on in place does to the
/// filesystem, one entry after the other, up to the first that fails.
pub open spec fn relink_from(plan: Plan, place: int, disk: Disk) -> (State, Disk)
    decreases plan.entries.len() - place,
{
    if !workable(plan, place) {
        (plan.enter(place), disk)
    } else {
        match relink(disk, plan.source(place), plan.target(place)) {
            (Some(fault), after) => (failed(place, fault), after),
            (None, after) => relink_from(plan, place + 1, after),
        }
    }
}

/// Run on the filesystem, the reconciler puts one entry after the other in
/// place, up to the first that fails.
pub proof fn lemma_run_relinks(plan: Plan, place: int, disk: Disk)
    requires
        0 <= place,
    ensures
        run(plan, plan.enter(place), disk) == relink_from(plan, place, disk),
    decreases plan.entries.len() - place,
{
    let start = plan.enter(place);
    if place >= plan.entries.len() || !plan.targets.contains_key(plan.entries[place].0) {
        assert(perform(disk, plan.request(start)) is None);
    } else {
        let source = plan.source(place);
        let target = plan.target(place);
        let kind = kind_for(disk, source);
        let probing = State { place, stage: Stage::ProbingTarget { kind } };
        let removing = State { place, stage: Stage::RemovingLink { kind } };
        let creating = State { place, stage: Stage::CreatingLink { kind } };
        let linked = disk.insert(target, Node::Link { to: source, kind });
        assert(plan.request(start) == Request::ProbeSource { path: source });
        if probe_source(disk, source) == SourceProbe::Missing {
            let failed = State { place, stage: Stage::Failed { fault: Fault::MissingSource } };
            assert(run(plan, start, disk) == run(plan, failed, disk));
            assert(perform(disk, plan.request(failed)) is None);
        } else {
            assert(run(plan, start, disk) == run(plan, probing, disk));
            assert(plan.request(probing) == Request::ProbeTarget { path: target });
            assert(plan.request(creating) == Request::CreateLink { source, target, kind });
            match probe_target(disk, target) {
                TargetProbe::Other => {
                    let failed = State {
                        place,
                        stage: Stage::Failed { fault: Fault::TargetNotOwned },
                    };
                    assert(run(plan, probing, disk) == run(plan, failed, disk));
                    assert(perform(disk, plan.request(failed)) is None);
                },
                TargetProbe::Absent => {
                    assert(run(plan, probing, disk) == run(plan, creating, disk));
                    assert(run(plan, creating, disk) == run(plan, plan.enter(place + 1), linked));
                    lemma_run_relinks(plan, place + 1, linked);
                },
                TargetProbe::Link => {
                    assert(run(plan, probing, disk) == run(plan, removing, disk));
                    assert(plan.request(removing) == Request::RemoveLink { path: target });
                    assert(run(plan, removing, disk) == run(plan, creating, disk.remove(target)));
                    assert(disk.remove(target).insert(target, Node::Link { to: source, kind })
                        =~= linked);
                    assert(run(plan, creating, disk.remove(target)) == run(
                        plan,
                        plan.enter(place + 1),
                        linked,
                    ));
                    lemma_run_relinks(plan, place + 1, linked);
                },
            }
        }
    }
}

/// An entry whose source path does not exist fails with `MissingSource`,
/// and the filesystem is as it was when the reconciler took the entry up.
pub proof fn lemma_missing_source(plan: Plan, place: int, disk: Disk)
    requires
        workable(plan, place),
        !disk.contains_key(plan.source(place)),
    ensures
        run(plan, plan.enter(place), disk) == (failed(place, Fault::MissingSource), disk),
        plan.result(failed(place, Fault::MissingSource)) == Err::<(), _>(
            Failure::MissingSource { path: plan.source(place) },
        ),
{
    lemma_run_relinks(plan, place, disk);
}

/// An entry whose target path holds something that is not a symbolic link
/// fails with `TargetNotOwned`, and the filesystem is as it was when the
/// reconciler took the entry up: what is at the target path is untouched.
pub proof fn lemma_target_not_owned(plan: Plan, place: int, disk: Disk)
    requires
        workable(plan, place),
        disk.contains_key(plan.source(place)),
        disk.contains_key(plan.target(place)),
        !(disk[plan.target(place)] is Link),
    ensures
        run(plan, plan.enter(place), disk) == (failed(place, Fault::TargetNotOwned), disk),
        plan.result(failed(place, Fault::TargetNotOwned)) == Err::<(), _>(
            Failure::TargetNotOwned { path: plan.target(place) },
        ),
{
    lemma_run_relinks(plan, place, disk);
}

/// An entry whose target path holds a symbolic link, or nothing, puts a
/// link to its source there and changes nothing else; the reconciler then
/// goes on to the next entry.
pub proof fn lemma_link_replaced(plan: Plan, place: int, disk: Disk)
    requires
        workable(plan, place),
        disk.contains_key(plan.source(place)),
        disk.contains_key(plan.target(place)) ==> disk[plan.target(place)] is Link,
    ensures
        run(plan, plan.enter(place), disk) == run(
            plan,
            plan.enter(place + 1),
            disk.insert(plan.target(place), link_to(disk, plan.source(place))),
        ),
{
    let after = disk.insert(plan.target(place), link_to(disk, plan.source(place)));
    lemma_run_relinks(plan, place, disk);
    lemma_run_relinks(plan, place + 1, after);
}

/// Whatever the reconciler does from `place` on, it leaves in place what
/// is not a symbolic link, it leaves a link where there was one, and it
/// puts nothing but a link where there was nothing.
pub proof fn lemma_relink_keeps(plan: Plan, place: int, disk: Disk, path: Seq<char>)
    requires
        0 <= place,
    ensures
        ({
            let after = relink_from(plan, place, disk).1;
            &&& disk.contains_key(path) ==> after.contains_key(path)
            &&& disk.contains_key(path) && !(disk[path] is Link) ==> after[path] == disk[path]
            &&& disk.contains_key(path) && disk[path] is Link ==> after[path] is Link
            &&& !disk.contains_key(path) && after.contains_key(path) ==> after[path] is Link
        }),
    decreases plan.entries.len() - place,
{
    if workable(plan, place) {
        let source = plan.source(place);
        let target = plan.target(place);
        if relink(disk, source, target).0 is None {
            lemma_relink_keeps(plan, place + 1, disk.insert(target, link_to(disk, source)), path);
        }
    }
}

/// Applying a plan never changes or removes what is not a symbolic link.
pub proof fn lemma_owned_content_kept(plan: Plan, disk: Disk, path: Seq<char>)
    requires
        disk.contains_key(path),
        !(disk[path] is Link),
    ensures
        apply(plan, disk).1.contains_key(path),
        apply(plan, disk).1[path] == disk[path],
{
    lemma_run_relinks(plan, 0, disk);
    lemma_relink_keeps(plan, 0, disk, path);
}

/// What the reconciler does from `place` on leaves a path alone that is
/// the target path of none of the entries from `place` on.
pub proof fn lemma_relink_frame(plan: Plan, place: int, disk: Disk, path: Seq<char>)
    requires
        0 <= place,
        forall|j: int| place <= j && workable(plan, j) ==> #[trigger] plan.target(j) != path,
    ensures
        same_at(relink_from(plan, place, disk).1, disk, path),
    decreases plan.entries.len() - place,
{
    if workable(plan, place) {
        let source = plan.source(place);
        let target = plan.target(place);
        if relink(disk, source, target).0 is None {
            let after = disk.insert(target, link_to(disk, source));
            lemma_relink_frame(plan, place + 1, after, path);
        }
    }
}

/// Where the reconciler finishes what it does from `start` on, the config
/// defines the target of each entry from there on.
proof fn lemma_finished_is_workable(plan: Plan, start: int, disk: Disk, place: int)
    requires
        0 <= start <= place < plan.entries.len(),
        relink_from(plan, start, disk).0.stage == Stage::Finished,
    ensures
        workable(plan, place),
    decreases plan.entries.len() - start,
{
    if start < place {
        let next = disk.insert(plan.target(start), link_to(disk, plan.source(start)));
        lemma_finished_is_workable(plan, start + 1, next, place);
    }
}

/// Where the reconciler finishes what it does from `start` on, the source
/// of the entry at `place` exists afterwards.
proof fn lemma_source_stays(plan: Plan, start: int, disk: Disk, place: int)
    requires
        0 <= start <= place < plan.entries.len(),
        relink_from(plan, start, disk).0.stage == Stage::Finished,
    ensures
        relink_from(plan, start, disk).1.contains_key(plan.source(place)),
    decreases plan.entries.len() - start,
{
    let next = disk.insert(plan.target(start), link_to(disk, plan.source(start)));
    if start < place {
        lemma_source_stays(plan, start + 1, next, place);
    } else {
        lemma_relink_keeps(plan, place + 1, next, plan.source(place));
    }
}

/// Where the reconciler finishes what it does from `start` on, the target
/// path of the entry at `place` holds a link to the source of that entry
/// afterwards, unless an entry after it has the same target path.
proof fn lemma_relinked_target(plan: Plan, start: int, disk: Disk, place: int)
    requires
        0 <= start <= place < plan.entries.len(),
        relink_from(plan, start, disk).0.stage == Stage::Finished,
        forall|j: int| place < j && workable(plan, j) ==> #[trigger] plan.target(j) != plan.target(
            place,
        ),
    ensures
        ({
            let after = relink_from(plan, start, disk).1;
            &&& after.contains_key(plan.target(place))
            &&& after[plan.target(place)] is Link
            &&& after[plan.target(place)]->to == plan.source(place)
        }),
    decreases plan.entries.len() - start,
{
    let next = disk.insert(plan.target(start), link_to(disk, plan.source(start)));
    if start < place {
        lemma_relinked_target(plan, start + 1, next, place);
    } else {
        lemma_relink_frame(plan, place + 1, next, plan.target(place));
    }
}

/// After a plan was applied to the end, the target path of each entry holds a
/// symbolic link to the source of that entry, unless an entry after it has
/// the same target path: the link that was there before is gone, and the
/// new one points to what exists.
pub proof fn lemma_applied_target(plan: Plan, disk: Disk, place: int)
    requires
        0 <= place < plan.entries.len(),
        apply(plan, disk).0.stage == Stage::Finished,
        forall|j: int|
            place < j < plan.entries.len() ==> #[trigger] plan.target(j) != plan.target(place),
    ensures
        apply(plan, disk).1.contains_key(plan.target(place)),
        apply(plan, disk).1[plan.target(place)] is Link,
        apply(plan, disk).1[plan.target(place)]->to == plan.source(place),
        apply(plan, disk).1.contains_key(plan.source(place)),
{
    lemma_run_relinks(plan, 0, disk);
    lemma_relinked_target(plan, 0, disk, place);
    lemma_source_stays(plan, 0, disk, place);
}

/// After a plan was applied to the end, whose mapping names no target twice
/// and whose targets lie at different paths, the path of each target that
/// the mapping names holds a symbolic link to the source that the mapping
/// has for it.
pub proof fn lemma_applied_mapping(plan: Plan, disk: Disk, slot: Seq<char>)
    requires
        apply(plan, disk).0.stage == Stage::Finished,
        keys(plan.entries).no_duplicates(),
        forall|i: int, j: int|
            #![trigger plan.target(i), plan.target(j)]
            0 <= i < j < plan.entries.len() ==> plan.target(i) != plan.target(j),
        as_map(plan.entries).contains_key(slot),
    ensures
        plan.targets.contains_key(slot),
        apply(plan, disk).1.contains_key(plan.targets[slot]),
        apply(plan, disk).1[plan.targets[slot]] is Link,
        apply(plan, disk).1[plan.targets[slot]]->to == as_map(plan.entries)[slot],
{
    lemma_as_map_entries(plan.entries);
    let place = choose|place: int|
        0 <= place < plan.entries.len() && (#[trigger] plan.entries[place]).0 == slot;
    lemma_run_relinks(plan, 0, disk);
    lemma_finished_is_workable(plan, 0, disk, place);
    lemma_applied_target(plan, disk, place);
}

/// The reconciler does the same from `place` on, and leaves the same, on
/// a filesystem that at each path holds what the first one held before or
/// holds after the work.
proof fn lemma_relink_again(plan: Plan, place: int, first: Disk, second: Disk)
    requires
        0 <= place,
        forall|path: Seq<char>| #[trigger]
            same_at(second, first, path) || same_at(
                second,
                relink_from(plan, place, first).1,
                path,
            ),
    ensures
        relink_from(plan, place, second) == relink_from(plan, place, first),
    decreases plan.entries.len() - place,
{
    let last = relink_from(plan, place, first).1;
    if workable(plan, place) && relink(first, plan.source(place), plan.target(place)).0 is None {
        let source = plan.source(place);
        let target = plan.target(place);
        let link = link_to(first, source);
        let first_next = first.insert(target, link);
        let second_next = second.insert(target, link);
        lemma_relink_keeps(plan, place, first, source);
        lemma_relink_keeps(plan, place + 1, first_next, target);
        assert(same_at(second, first, source) || same_at(second, last, source));
        assert(same_at(second, first, target) || same_at(second, last, target));
        assert(last[target] is Link);
        assert(kind_for(second, source) == kind_for(first, source));
        assert(relink(second, source, target) == (None::<Fault>, second_next));
        assert forall|path: Seq<char>| #[trigger]
            same_at(second_next, first_next, path) || same_at(second_next, last, path) by {
            assert(same_at(second, first, path) || same_at(second, last, path));
        }
        lemma_relink_again(plan, place + 1, first_next, second_next);
    } else {
        assert(last == first);
        assert forall|path: Seq<char>| #[trigger]
            second.dom().contains(path) == first.dom().contains(path) by {
            assert(same_at(second, first, path) || same_at(second, last, path));
        }
        assert forall|path: Seq<char>| #[trigger]
            second.dom().contains(path) implies second[path] == first[path] by {
            assert(same_at(second, first, path) || same_at(second, last, path));
        }
        assert(second =~= first);
    }
}

/// Applying a plan a second time, to the filesystem that the first time
/// left, ends as the first time did and leaves the filesystem as it found
/// it.
pub proof fn lemma_apply_twice(plan: Plan, disk: Disk)
    ensures
        apply(plan, apply(plan, disk).1) == apply(plan, disk),
{
    let once = apply(plan, disk).1;
    lemma_run_relinks(plan, 0, disk);
    lemma_run_relinks(plan, 0, once);
    assert forall|path: Seq<char>| #[trigger]
        same_at(once, disk, path) || same_at(once, relink_from(plan, 0, disk).1, path) by {
        assert(same_at(once, once, path));
    }
    lemma_relink_again(plan, 0, disk, once);
}

} // verus!
