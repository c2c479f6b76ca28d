//! The filesystem reconciler: what to ask of the filesystem, step by step,
//! to put a resolved mapping in place.
//!
//! The reconciler never touches the filesystem. It names the next thing to
//! do, its caller does it and reports the outcome, and the reconciler
//! decides from that what comes next.

use vstd::prelude::*;

use crate::error::Failure;
use crate::error::LoadoutError;
use crate::files::Entries;
use crate::files::FileMap;
use crate::files::ResolvedMapping;

verus! {

/// The kind of a symbolic link, on platforms that tell the two apart.
#[derive(Debug, Clone, Copy, PartialEq, Eq)]
pub enum LinkKind {
    File,
    Directory,
}

/// What a probe of a source path found. The probe does not follow symbolic
/// links: a link counts as a file, whatever it points to.
#[derive(Debug, Clone, Copy, PartialEq, Eq)]
pub enum SourceProbe {
    Missing,
    File,
    Directory,
}

/// What a probe of a target path found. The probe reports on the path
/// itself: a symbolic link is a `Link`, whether or not it points anywhere.
#[derive(Debug, Clone, Copy, PartialEq, Eq)]
pub enum TargetProbe {
    Absent,
    Link,
    Other,
}

/// The outcome of what the reconciler asked for.
#[derive(Debug, Clone, Copy, PartialEq, Eq)]
pub enum Event {
    SourceProbed { source: SourceProbe },
    TargetProbed { target: TargetProbe },
    LinkRemoved { removed: bool },
    LinkCreated { created: bool },
}

/// Why the reconciler gave up.
#[derive(Debug, Clone, Copy, PartialEq, Eq)]
pub enum Fault {
    UnknownTarget,
    MissingSource,
    TargetNotOwned,
    LinkRemovalFailed,
    LinkCreationFailed,
}

/// Where the reconciler stands with the entry it works on.
#[derive(Debug, Clone, Copy, PartialEq, Eq)]
pub enum Stage {
    ProbingSource,
    ProbingTarget { kind: LinkKind },
    RemovingLink { kind: LinkKind },
    CreatingLink { kind: LinkKind },
    Finished,
    Failed { fault: Fault },
}

/// What the reconciler asks its caller to do next.
#[derive(Debug, PartialEq, Eq)]
pub enum Action {
    /// Probe the source path, without following a symbolic link.
    ProbeSource { path: String },
    /// Probe the target path itself, without following a symbolic link.
    ProbeTarget { path: String },
    /// Remove the symbolic link at the path. On a platform with two kinds
    /// of links, try both ways of removing one.
    RemoveLink { path: String },
    /// Create a symbolic link at `target` that points to `source`.
    CreateLink { source: String, target: String, kind: LinkKind },
    /// Stop: the mapping is in place, or the reconciler gave up.
    Finish { result: Result<(), LoadoutError> },
}

/// An action, with text as sequences of characters.
pub enum Request {
    ProbeSource { path: Seq<char> },
    ProbeTarget { path: Seq<char> },
    RemoveLink { path: Seq<char> },
    CreateLink { source: Seq<char>, target: Seq<char>, kind: LinkKind },
    Finish { result: Result<(), Failure> },
}

impl View for Action {
    type V = Request;

    open spec fn view(&self) -> Request {
        match self {
            Action::ProbeSource { path } => Request::ProbeSource { path: path@ },
            Action::ProbeTarget { path } => Request::ProbeTarget { path: path@ },
            Action::RemoveLink { path } => Request::RemoveLink { path: path@ },
            Action::CreateLink { source, target, kind } => Request::CreateLink {
                source: source@,
                target: target@,
                kind: *kind,
            },
            Action::Finish { result } => Request::Finish {
                result: match result {
                    Ok(_) => Ok(()),
                    Err(e) => Err(e@),
                },
            },
        }
    }
}

/// The event that a probe of a source path found `found`.
pub open spec fn source_probed(found: SourceProbe) -> Event {
    Event::SourceProbed { source: found }
}

/// The event that a probe of a target path found `found`.
pub open spec fn target_probed(found: TargetProbe) -> Event {
    Event::TargetProbed { target: found }
}

/// The failure that `fault` stands for at an entry that wants `source`
/// linked at the path `target` of the slot called `slot`.
pub open spec fn failure_of(
    fault: Fault,
    slot: Seq<char>,
    source: Seq<char>,
    target: Seq<char>,
) -> Failure {
    match fault {
        Fault::UnknownTarget => Failure::UnknownTarget { target: slot },
        Fault::MissingSource => Failure::MissingSource { path: source },
        Fault::TargetNotOwned => Failure::TargetNotOwned { path: target },
        Fault::LinkRemovalFailed => Failure::LinkRemovalFailed { path: target },
        Fault::LinkCreationFailed => Failure::LinkCreationFailed { target, source },
    }
}

/// What is to be put in place: the target slots with their paths, and the
/// entries of the resolved mapping in the order in which they are applied.
pub struct Plan {
    pub targets: Map<Seq<char>, Seq<char>>,
    pub entries: Entries,
}

/// How far the reconciler has come: the entry it works on, and where it
/// stands with it.
pub struct State {
    pub place: int,
    pub stage: Stage,
}

impl Plan {
    /// The path that the entry at `place` wants linked.
    pub open spec fn source(self, place: int) -> Seq<char> {
        self.entries[place].1
    }

    /// The path of the target slot that the entry at `place` names.
    pub open spec fn target(self, place: int) -> Seq<char> {
        self.targets[self.entries[place].0]
    }

    /// The failure that `fault` stands for at the entry at `place`.
    pub open spec fn failure(self, place: int, fault: Fault) -> Failure {
        failure_of(fault, self.entries[place].0, self.source(place), self.target(place))
    }

    /// The state in which the reconciler takes up the entry at `place`: it
    /// has finished where no entry is left, fails where the entry names a
    /// target that the config does not define, and probes the source
    /// otherwise.
    pub open spec fn enter(self, place: int) -> State {
        if place >= self.entries.len() {
            State { place, stage: Stage::Finished }
        } else if !self.targets.contains_key(self.entries[place].0) {
            State { place, stage: Stage::Failed { fault: Fault::UnknownTarget } }
        } else {
            State { place, stage: Stage::ProbingSource }
        }
    }

    /// The state after `event` came in. An event that does not answer what
    /// was asked for changes nothing.
    pub open spec fn next(self, state: State, event: Event) -> State {
        let place = state.place;
        match (state.stage, event) {
            (Stage::ProbingSource, Event::SourceProbed { source }) => match source {
                SourceProbe::Missing => State {
                    place,
                    stage: Stage::Failed { fault: Fault::MissingSource },
                },
                SourceProbe::File => State {
                    place,
                    stage: Stage::ProbingTarget { kind: LinkKind::File },
                },
                SourceProbe::Directory => State {
                    place,
                    stage: Stage::ProbingTarget { kind: LinkKind::Directory },
                },
            },
            (Stage::ProbingTarget { kind }, Event::TargetProbed { target }) => match target {
                TargetProbe::Absent => State { place, stage: Stage::CreatingLink { kind } },
                TargetProbe::Link => State { place, stage: Stage::RemovingLink { kind } },
                TargetProbe::Other => State {
                    place,
                    stage: Stage::Failed { fault: Fault::TargetNotOwned },
                },
            },
            (Stage::RemovingLink { kind }, Event::LinkRemoved { removed }) => if removed {
                State { place, stage: Stage::CreatingLink { kind } }
            } else {
                State { place, stage: Stage::Failed { fault: Fault::LinkRemovalFailed } }
            },
            (Stage::CreatingLink { kind }, Event::LinkCreated { created }) => if created {
                self.enter(place + 1)
            } else {
                State { place, stage: Stage::Failed { fault: Fault::LinkCreationFailed } }
            },
            _ => state,
        }
    }

    /// How the work ended, for a state in which it has ended.
    pub open spec fn result(self, state: State) -> Result<(), Failure> {
        match state.stage {
            Stage::Failed { fault } => Err(self.failure(state.place, fault)),
            _ => Ok(()),
        }
    }

    /// What the reconciler asks for in `state`.
    pub open spec fn request(self, state: State) -> Request {
        let place = state.place;
        match state.stage {
            Stage::ProbingSource => Request::ProbeSource { path: self.source(place) },
            Stage::ProbingTarget { .. } => Request::ProbeTarget { path: self.target(place) },
            Stage::RemovingLink { .. } => Request::RemoveLink { path: self.target(place) },
            Stage::CreatingLink { kind } => Request::CreateLink {
                source: self.source(place),
                target: self.target(place),
                kind,
            },
            Stage::Finished | Stage::Failed { .. } => Request::Finish { result: self.result(state) },
        }
    }

    /// The state in which the reconciler probes the source of the entry at
    /// `place`: what it has come to when it takes up an entry whose target
    /// the config defines.
    pub open spec fn probing(self, place: int) -> State {
        State { place, stage: Stage::ProbingSource }
    }

    /// The reconciler can be in `state`: it works on an entry that there is,
    /// whose target the config defines unless that is why it failed, and it
    /// has finished only behind the last entry.
    pub open spec fn admits(self, state: State) -> bool {
        match state.stage {
            Stage::Finished => state.place == self.entries.len(),
            Stage::Failed { fault: Fault::UnknownTarget } => 0 <= state.place < self.entries.len()
                && !self.targets.contains_key(self.entries[state.place].0),
            _ => 0 <= state.place < self.entries.len() && self.targets.contains_key(
                self.entries[state.place].0,
            ),
        }
    }
}

/// The request to finish with the failure that `fault` stands for at the
/// entry at `place`.
pub open spec fn finish_with(plan: Plan, place: int, fault: Fault) -> Request {
    Request::Finish { result: Err(plan.failure(place, fault)) }
}

/// A reconciler that has finished or given up stays as it is, whatever
/// comes in, and asks for nothing more.
pub proof fn lemma_end_is_final(plan: Plan, state: State, event: Event)
    requires
        state.stage is Finished || state.stage is Failed,
    ensures
        plan.next(state, event) == state,
        plan.request(state) is Finish,
{
}

/// The first thing that the reconciler asks for when it takes up an entry
/// is the probe of its source, unless it finishes there.
pub proof fn lemma_entry_begins_with_probe(plan: Plan, place: int)
    ensures
        plan.request(plan.enter(place)) is Finish || plan.enter(place) == plan.probing(place),
        plan.request(plan.probing(place)) == (Request::ProbeSource { path: plan.source(place) }),
{
}

/// When the probe finds no source, the reconciler gives up with
/// `MissingSource`: it asks for nothing else at that entry.
pub proof fn lemma_missing_source_ends(plan: Plan, place: int)
    ensures
        plan.request(plan.next(plan.probing(place), source_probed(SourceProbe::Missing)))
            == finish_with(plan, place, Fault::MissingSource),
        plan.failure(place, Fault::MissingSource) == (Failure::MissingSource {
            path: plan.source(place),
        }),
{
}

/// When the probe finds something at the target path that is not a
/// symbolic link, the reconciler gives up with `TargetNotOwned`: it asks
/// for no change at that path.
pub proof fn lemma_target_not_owned_ends(plan: Plan, state: State)
    requires
        state.stage is ProbingTarget,
    ensures
        plan.request(plan.next(state, target_probed(TargetProbe::Other))) == finish_with(
            plan,
            state.place,
            Fault::TargetNotOwned,
        ),
        plan.failure(state.place, Fault::TargetNotOwned) == (Failure::TargetNotOwned {
            path: plan.target(state.place),
        }),
{
}

/// The reconciler comes to ask for the removal of a link only when a probe
/// of that path has just found a symbolic link there.
pub proof fn lemma_removal_follows_probe(plan: Plan, state: State, event: Event)
    requires
        plan.request(plan.next(state, event)) is RemoveLink,
        !(plan.request(state) is RemoveLink),
    ensures
        plan.request(state) == (Request::ProbeTarget { path: plan.target(state.place) }),
        event == target_probed(TargetProbe::Link),
        plan.request(plan.next(state, event)) == (Request::RemoveLink {
            path: plan.target(state.place),
        }),
{
}

/// The reconciler comes to ask for the creation of a link only when a
/// probe of that path has just found nothing there, or when the symbolic
/// link that was there has just been removed.
pub proof fn lemma_creation_follows_probe(plan: Plan, state: State, event: Event)
    requires
        plan.request(plan.next(state, event)) is CreateLink,
        !(plan.request(state) is CreateLink),
    ensures
        plan.request(plan.next(state, event))->target == plan.target(state.place),
        plan.request(plan.next(state, event))->source == plan.source(state.place),
        plan.request(state) is ProbeTarget || plan.request(state) is RemoveLink,
        plan.request(state) is ProbeTarget ==> event == target_probed(TargetProbe::Absent),
        plan.request(state) is RemoveLink ==> event == (Event::LinkRemoved { removed: true }),
        plan.request(state) is ProbeTarget ==> plan.request(state)->ProbeTarget_path
            == plan.target(state.place),
        plan.request(state) is RemoveLink ==> plan.request(state)->RemoveLink_path == plan.target(
            state.place,
        ),
{
}

/// The entry that the reconciler works on, and where it stands with it.
#[derive(Debug, Clone, Copy)]
struct Cursor {
    place: usize,
    stage: Stage,
}

impl Cursor {
    spec fn state(self) -> State {
        State { place: self.place as int, stage: self.stage }
    }
}

/// The plan to put the entries of `mapping` in place at the paths of
/// `targets`.
pub open spec fn plan_of(targets: &FileMap, mapping: &FileMap) -> Plan {
    Plan { targets: targets@, entries: mapping.entries() }
}

/// Puts a resolved mapping in place, one entry after the other, through a
/// caller that does the work on the filesystem.
///
/// The caller takes what `pending` asks for, does it, and hands the outcome
/// to `advance`, until `pending` says `Finish`. For each entry the
/// reconciler asks for a probe of the source, then for a probe of the
/// target, then to remove the link that is there, if there is one, and
/// then to create the new link. It gives up at the first entry that fails,
/// and leaves the entries before it in place.
#[derive(Debug)]
pub struct Reconciler<'a> {
    targets: &'a FileMap,
    mapping: ResolvedMapping,
    cursor: Cursor,
}

impl<'a> Reconciler<'a> {
    /// What the reconciler is to put in place.
    pub closed spec fn plan(&self) -> Plan {
        plan_of(self.targets, &self.mapping)
    }

    /// How far the reconciler has come.
    pub closed spec fn state(&self) -> State {
        self.cursor.state()
    }

    #[verifier::type_invariant]
    spec fn sound(self) -> bool {
        self.plan().admits(self.state())
    }

    /// Where the reconciler stands when it takes up the entry at `place`.
    fn enter(targets: &FileMap, mapping: &FileMap, place: usize) -> (cursor: Cursor)
        ensures
            cursor.state() == plan_of(targets, mapping).enter(place as int),
            place <= mapping.entries().len() ==> plan_of(targets, mapping).admits(cursor.state()),
    {
        match mapping.entry(place) {
            None => Cursor { place, stage: Stage::Finished },
            Some((key, _)) => match targets.get(key.as_str()) {
                None => Cursor { place, stage: Stage::Failed { fault: Fault::UnknownTarget } },
                Some(_) => Cursor { place, stage: Stage::ProbingSource },
            },
        }
    }

    /// A reconciler that is to put `mapping` in place at the paths of
    /// `targets`, and has done nothing yet.
    pub fn new(targets: &'a FileMap, mapping: ResolvedMapping) -> (reconciler: Self)
        ensures
            reconciler.plan() == plan_of(targets, &mapping),
            reconciler.state() == reconciler.plan().enter(0),
            reconciler.plan().admits(reconciler.state()),
    {
        let cursor = Self::enter(targets, &mapping, 0);
        Reconciler { targets, mapping, cursor }
    }

    /// The failure that `fault` stands for at an entry with these texts.
    fn failure(
        fault: Fault,
        slot: &String,
        source: &String,
        target: &String,
    ) -> (error: LoadoutError)
        ensures
            error@ == failure_of(fault, slot@, source@, target@),
    {
        match fault {
            Fault::UnknownTarget => LoadoutError::UnknownTarget { target: slot.clone() },
            Fault::MissingSource => LoadoutError::MissingSource { path: source.clone() },
            Fault::TargetNotOwned => LoadoutError::TargetNotOwned { path: target.clone() },
            Fault::LinkRemovalFailed => LoadoutError::LinkRemovalFailed { path: target.clone() },
            Fault::LinkCreationFailed => LoadoutError::LinkCreationFailed {
                target: target.clone(),
                source: source.clone(),
            },
        }
    }

    /// What the caller is to do next.
    pub fn pending(&self) -> (action: Action)
        ensures
            action@ == self.plan().request(self.state()),
            self.plan().admits(self.state()),
    {
        proof {
            use_type_invariant(self);
        }
        let stage = self.cursor.stage;
        let (slot, source) = match self.mapping.entry(self.cursor.place) {
            Some(entry) => entry,
            None => {
                // Behind the last entry the reconciler has finished.
                return Action::Finish { result: Ok(()) };
            },
        };
        let target = match self.targets.get(slot.as_str()) {
            Some(target) => target,
            None => {
                // At an entry without a target the reconciler has failed for that.
                return Action::Finish {
                    result: Err(LoadoutError::UnknownTarget { target: slot.clone() }),
                };
            },
        };
        match stage {
            Stage::ProbingSource => Action::ProbeSource { path: source.clone() },
            Stage::ProbingTarget { .. } => Action::ProbeTarget { path: target.clone() },
            Stage::RemovingLink { .. } => Action::RemoveLink { path: target.clone() },
            Stage::CreatingLink { kind } => Action::CreateLink {
                source: source.clone(),
                target: target.clone(),
                kind,
            },
            Stage::Finished => Action::Finish { result: Ok(()) },
            Stage::Failed { fault } => Action::Finish {
                result: Err(Self::failure(fault, slot, source, target)),
            },
        }
    }

    /// Takes in the outcome of what `pending` asked for. An event that does
    /// not answer it changes nothing.
    pub fn advance(&mut self, event: Event)
        ensures
            final(self).plan() == old(self).plan(),
            final(self).state() == old(self).plan().next(old(self).state(), event),
            final(self).plan().admits(final(self).state()),
    {
        proof {
            use_type_invariant(&*self);
            self.mapping.lemma_len_bounded();
        }
        let place = self.cursor.place;
        let cursor = match (self.cursor.stage, event) {
            (Stage::ProbingSource, Event::SourceProbed { source }) => match source {
                SourceProbe::Missing => Cursor {
                    place,
                    stage: Stage::Failed { fault: Fault::MissingSource },
                },
                SourceProbe::File => Cursor {
                    place,
                    stage: Stage::ProbingTarget { kind: LinkKind::File },
                },
                SourceProbe::Directory => Cursor {
                    place,
                    stage: Stage::ProbingTarget { kind: LinkKind::Directory },
                },
            },
            (Stage::ProbingTarget { kind }, Event::TargetProbed { target }) => match target {
                TargetProbe::Absent => Cursor { place, stage: Stage::CreatingLink { kind } },
                TargetProbe::Link => Cursor { place, stage: Stage::RemovingLink { kind } },
                TargetProbe::Other => Cursor {
                    place,
                    stage: Stage::Failed { fault: Fault::TargetNotOwned },
                },
            },
            (Stage::RemovingLink { kind }, Event::LinkRemoved { removed }) => if removed {
                Cursor { place, stage: Stage::CreatingLink { kind } }
            } else {
                Cursor { place, stage: Stage::Failed { fault: Fault::LinkRemovalFailed } }
            },
            (Stage::CreatingLink { kind }, Event::LinkCreated { created }) => if created {
                Self::enter(self.targets, &self.mapping, place + 1)
            } else {
                Cursor { place, stage: Stage::Failed { fault: Fault::LinkCreationFailed } }
            },
            _ => self.cursor,
        };
        self.cursor = cursor;
    }
}

} // verus!
