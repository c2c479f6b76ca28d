use std::collections::BTreeMap;

use config_loader::config::Loadout;
use config_loader::config::LoadoutsConfig;
use config_loader::error::LoadoutError;
use config_loader::files::FileMap;
use config_loader::load::load_loadout;
use config_loader::reconcile::Action;
use config_loader::reconcile::Event;
use config_loader::reconcile::LinkKind;
use config_loader::reconcile::Reconciler;
use config_loader::reconcile::SourceProbe;
use config_loader::reconcile::TargetProbe;

#[derive(Clone, Debug, PartialEq, Eq)]
enum Node {
    File(Vec<u8>),
    Directory,
    Link(String, LinkKind),
}

type Disk = BTreeMap<String, Node>;

fn table(pairs: &[(&str, &str)]) -> FileMap {
    let mut table = FileMap::new();
    for (key, value) in pairs {
        table.insert(key.to_string(), value.to_string());
    }
    table
}

fn disk_of(nodes: &[(&str, Node)]) -> Disk {
    nodes.iter().map(|(path, node)| (path.to_string(), node.clone())).collect()
}

fn file(contents: &str) -> Node {
    Node::File(contents.as_bytes().to_vec())
}

fn link(to: &str) -> Node {
    Node::Link(to.to_string(), LinkKind::File)
}

/// Does on `disk` what the reconciler asks for, as a filesystem would.
fn answer(disk: &mut Disk, action: &Action) -> Event {
    match action {
        Action::ProbeSource { path } => Event::SourceProbed {
            source: match disk.get(path) {
                None => SourceProbe::Missing,
                Some(Node::Directory) => SourceProbe::Directory,
                Some(_) => SourceProbe::File,
            },
        },
        Action::ProbeTarget { path } => Event::TargetProbed {
            target: match disk.get(path) {
                None => TargetProbe::Absent,
                Some(Node::Link(_, _)) => TargetProbe::Link,
                Some(_) => TargetProbe::Other,
            },
        },
        Action::RemoveLink { path } => {
            let is_link = matches!(disk.get(path), Some(Node::Link(_, _)));
            if is_link {
                disk.remove(path);
            }
            Event::LinkRemoved { removed: is_link }
        }
        Action::CreateLink { source, target, kind } => {
            if disk.contains_key(target) {
                Event::LinkCreated { created: false }
            } else {
                disk.insert(target.clone(), Node::Link(source.clone(), *kind));
                Event::LinkCreated { created: true }
            }
        }
        Action::Finish { .. } => panic!("nothing to do"),
    }
}

/// Runs the reconciler on `disk` until it finishes, and hands back how it
/// ended and what it asked for on the way.
fn run(reconciler: &mut Reconciler, disk: &mut Disk) -> (Result<(), LoadoutError>, Vec<Action>) {
    let mut asked = Vec::new();
    for _ in 0..1000 {
        let action = reconciler.pending();
        if let Action::Finish { result } = action {
            return (result, asked);
        }
        let event = answer(disk, &action);
        asked.push(action);
        reconciler.advance(event);
    }
    panic!("the reconciler does not finish");
}

fn apply(targets: &FileMap, mapping: FileMap, disk: &mut Disk) -> Result<(), LoadoutError> {
    let mut reconciler = Reconciler::new(targets, mapping);
    run(&mut reconciler, disk).0
}

fn text(s: &str) -> String {
    s.to_string()
}

#[test]
fn empty_mapping_finishes_at_once() {
    let targets = table(&[("t", "/t")]);
    let reconciler = Reconciler::new(&targets, FileMap::new());
    assert_eq!(reconciler.pending(), Action::Finish { result: Ok(()) });
}

#[test]
fn absent_target_is_probed_and_linked() {
    let targets = table(&[("t", "/t")]);
    let mut disk = disk_of(&[("/s", file("source"))]);
    let mut reconciler = Reconciler::new(&targets, table(&[("t", "/s")]));
    let (result, asked) = run(&mut reconciler, &mut disk);
    assert_eq!(result, Ok(()));
    assert_eq!(
        asked,
        vec![
            Action::ProbeSource { path: text("/s") },
            Action::ProbeTarget { path: text("/t") },
            Action::CreateLink { source: text("/s"), target: text("/t"), kind: LinkKind::File },
        ]
    );
    assert_eq!(disk.get("/t"), Some(&link("/s")));
    assert_eq!(disk.get("/s"), Some(&file("source")));
}

#[test]
fn existing_link_is_removed_and_replaced() {
    let targets = table(&[("t", "/t")]);
    let mut disk = disk_of(&[("/old", file("old")), ("/new", file("new")), ("/t", link("/old"))]);
    let mut reconciler = Reconciler::new(&targets, table(&[("t", "/new")]));
    let (result, asked) = run(&mut reconciler, &mut disk);
    assert_eq!(result, Ok(()));
    assert_eq!(
        asked,
        vec![
            Action::ProbeSource { path: text("/new") },
            Action::ProbeTarget { path: text("/t") },
            Action::RemoveLink { path: text("/t") },
            Action::CreateLink { source: text("/new"), target: text("/t"), kind: LinkKind::File },
        ]
    );
    assert_eq!(disk.get("/t"), Some(&link("/new")));
    assert_eq!(disk.len(), 3);
    let links = disk.values().filter(|node| matches!(node, Node::Link(_, _))).count();
    assert_eq!(links, 1);
}

#[test]
fn broken_link_is_replaced_without_a_look_at_what_it_points_to() {
    let targets = table(&[("t", "/t")]);
    let mut disk = disk_of(&[("/new", file("new")), ("/t", link("/nowhere"))]);
    let mut reconciler = Reconciler::new(&targets, table(&[("t", "/new")]));
    let (result, asked) = run(&mut reconciler, &mut disk);
    assert_eq!(result, Ok(()));
    assert!(!asked.contains(&Action::ProbeSource { path: text("/nowhere") }));
    assert!(!asked.contains(&Action::ProbeTarget { path: text("/nowhere") }));
    assert_eq!(disk.get("/t"), Some(&link("/new")));
}

#[test]
fn directory_source_gets_a_directory_link() {
    let targets = table(&[("t", "/t")]);
    let mut disk = disk_of(&[("/dir", Node::Directory)]);
    assert_eq!(apply(&targets, table(&[("t", "/dir")]), &mut disk), Ok(()));
    assert_eq!(disk.get("/t"), Some(&Node::Link(text("/dir"), LinkKind::Directory)));
}

#[test]
fn link_as_a_source_gets_a_file_link() {
    let targets = table(&[("t", "/t")]);
    let mut disk = disk_of(&[("/dir", Node::Directory), ("/alias", link("/dir"))]);
    assert_eq!(apply(&targets, table(&[("t", "/alias")]), &mut disk), Ok(()));
    assert_eq!(disk.get("/t"), Some(&Node::Link(text("/alias"), LinkKind::File)));
}

#[test]
fn missing_source_fails_before_the_target_is_looked_at() {
    let targets = table(&[("t", "/t")]);
    let before = disk_of(&[("/t", link("/old")), ("/old", file("old"))]);
    let mut disk = before.clone();
    let mut reconciler = Reconciler::new(&targets, table(&[("t", "/gone")]));
    let (result, asked) = run(&mut reconciler, &mut disk);
    assert_eq!(result, Err(LoadoutError::MissingSource { path: text("/gone") }));
    assert_eq!(asked, vec![Action::ProbeSource { path: text("/gone") }]);
    assert_eq!(disk, before);
}

#[test]
fn regular_file_at_the_target_is_refused_and_untouched() {
    let targets = table(&[("t", "/t")]);
    let before = disk_of(&[("/s", file("source")), ("/t", file("precious bytes"))]);
    let mut disk = before.clone();
    let mut reconciler = Reconciler::new(&targets, table(&[("t", "/s")]));
    let (result, asked) = run(&mut reconciler, &mut disk);
    assert_eq!(result, Err(LoadoutError::TargetNotOwned { path: text("/t") }));
    assert_eq!(
        asked,
        vec![Action::ProbeSource { path: text("/s") }, Action::ProbeTarget { path: text("/t") }]
    );
    assert_eq!(disk, before);
    assert_eq!(disk.get("/t"), Some(&file("precious bytes")));
}

#[test]
fn directory_at_the_target_is_refused_and_untouched() {
    let targets = table(&[("t", "/t")]);
    let before = disk_of(&[("/s", file("source")), ("/t", Node::Directory)]);
    let mut disk = before.clone();
    assert_eq!(
        apply(&targets, table(&[("t", "/s")]), &mut disk),
        Err(LoadoutError::TargetNotOwned { path: text("/t") })
    );
    assert_eq!(disk, before);
}

#[test]
fn unknown_target_fails_with_its_identifier() {
    let targets = table(&[("t", "/t")]);
    let reconciler = Reconciler::new(&targets, table(&[("other", "/s")]));
    assert_eq!(
        reconciler.pending(),
        Action::Finish { result: Err(LoadoutError::UnknownTarget { target: text("other") }) }
    );
}

#[test]
fn unknown_target_fails_only_when_its_turn_comes() {
    let targets = table(&[("t", "/t")]);
    let mut disk = disk_of(&[("/s", file("source"))]);
    let mapping = table(&[("t", "/s"), ("other", "/s")]);
    assert_eq!(
        apply(&targets, mapping, &mut disk),
        Err(LoadoutError::UnknownTarget { target: text("other") })
    );
    assert_eq!(disk.get("/t"), Some(&link("/s")));
}

#[test]
fn first_failure_stops_the_work_and_keeps_what_is_done() {
    let targets = table(&[("a", "/a"), ("b", "/b"), ("c", "/c")]);
    let mut disk = disk_of(&[("/sa", file("a")), ("/sc", file("c"))]);
    let mapping = table(&[("a", "/sa"), ("b", "/sb"), ("c", "/sc")]);
    let mut reconciler = Reconciler::new(&targets, mapping);
    let (result, asked) = run(&mut reconciler, &mut disk);
    assert_eq!(result, Err(LoadoutError::MissingSource { path: text("/sb") }));
    assert_eq!(disk.get("/a"), Some(&link("/sa")));
    assert_eq!(disk.get("/b"), None);
    assert_eq!(disk.get("/c"), None);
    assert!(!asked.contains(&Action::ProbeSource { path: text("/sc") }));
}

#[test]
fn failed_removal_fails_with_link_removal_failed() {
    let targets = table(&[("t", "/t")]);
    let mut reconciler = Reconciler::new(&targets, table(&[("t", "/s")]));
    reconciler.advance(Event::SourceProbed { source: SourceProbe::File });
    reconciler.advance(Event::TargetProbed { target: TargetProbe::Link });
    assert_eq!(reconciler.pending(), Action::RemoveLink { path: text("/t") });
    reconciler.advance(Event::LinkRemoved { removed: false });
    assert_eq!(
        reconciler.pending(),
        Action::Finish { result: Err(LoadoutError::LinkRemovalFailed { path: text("/t") }) }
    );
}

#[test]
fn failed_creation_fails_with_link_creation_failed() {
    let targets = table(&[("t", "/t")]);
    let mut reconciler = Reconciler::new(&targets, table(&[("t", "/s")]));
    reconciler.advance(Event::SourceProbed { source: SourceProbe::Directory });
    reconciler.advance(Event::TargetProbed { target: TargetProbe::Absent });
    assert_eq!(
        reconciler.pending(),
        Action::CreateLink { source: text("/s"), target: text("/t"), kind: LinkKind::Directory }
    );
    reconciler.advance(Event::LinkCreated { created: false });
    assert_eq!(
        reconciler.pending(),
        Action::Finish {
            result: Err(LoadoutError::LinkCreationFailed { target: text("/t"), source: text("/s") })
        }
    );
}

#[test]
fn event_that_answers_nothing_is_ignored() {
    let targets = table(&[("t", "/t")]);
    let mut reconciler = Reconciler::new(&targets, table(&[("t", "/s")]));
    let asked = Action::ProbeSource { path: text("/s") };
    assert_eq!(reconciler.pending(), asked);
    reconciler.advance(Event::LinkCreated { created: true });
    assert_eq!(reconciler.pending(), asked);
    reconciler.advance(Event::TargetProbed { target: TargetProbe::Other });
    assert_eq!(reconciler.pending(), asked);
    reconciler.advance(Event::LinkRemoved { removed: true });
    assert_eq!(reconciler.pending(), asked);
}

#[test]
fn finished_reconciler_stays_finished() {
    let targets = table(&[("t", "/t")]);
    let mut reconciler = Reconciler::new(&targets, table(&[("t", "/s")]));
    reconciler.advance(Event::SourceProbed { source: SourceProbe::Missing });
    let end = Action::Finish { result: Err(LoadoutError::MissingSource { path: text("/s") }) };
    assert_eq!(reconciler.pending(), end);
    reconciler.advance(Event::SourceProbed { source: SourceProbe::File });
    reconciler.advance(Event::LinkCreated { created: true });
    assert_eq!(reconciler.pending(), end);
}

#[test]
fn entries_are_applied_in_their_order() {
    let targets = table(&[("a", "/a"), ("b", "/b")]);
    let mut disk = disk_of(&[("/sa", file("a")), ("/sb", file("b"))]);
    let mut reconciler = Reconciler::new(&targets, table(&[("b", "/sb"), ("a", "/sa")]));
    let (result, asked) = run(&mut reconciler, &mut disk);
    assert_eq!(result, Ok(()));
    assert_eq!(asked.len(), 6);
    assert_eq!(asked[0], Action::ProbeSource { path: text("/sb") });
    assert_eq!(asked[3], Action::ProbeSource { path: text("/sa") });
}

#[test]
fn applying_twice_leaves_what_applying_once_leaves() {
    let targets = table(&[("a", "/a"), ("b", "/b"), ("c", "/c")]);
    let start = disk_of(&[
        ("/sa", file("a")),
        ("/sb", Node::Directory),
        ("/sc", file("c")),
        ("/b", link("/elsewhere")),
    ]);
    let mapping = table(&[("a", "/sa"), ("b", "/sb"), ("c", "/sc")]);
    let mut once = start.clone();
    assert_eq!(apply(&targets, mapping.clone(), &mut once), Ok(()));
    let mut twice = once.clone();
    assert_eq!(apply(&targets, mapping, &mut twice), Ok(()));
    assert_eq!(twice, once);
    assert_eq!(once.get("/b"), Some(&Node::Link(text("/sb"), LinkKind::Directory)));
}

#[test]
fn applying_twice_fails_twice_alike() {
    let targets = table(&[("a", "/a"), ("b", "/b")]);
    let start = disk_of(&[("/sa", file("a")), ("/sb", file("b")), ("/b", file("mine"))]);
    let mapping = table(&[("a", "/sa"), ("b", "/sb")]);
    let mut once = start.clone();
    let first = apply(&targets, mapping.clone(), &mut once);
    let mut twice = once.clone();
    let second = apply(&targets, mapping, &mut twice);
    assert_eq!(first, Err(LoadoutError::TargetNotOwned { path: text("/b") }));
    assert_eq!(second, first);
    assert_eq!(twice, once);
    assert_eq!(once.get("/a"), Some(&link("/sa")));
}

#[test]
fn source_that_is_a_target_of_the_same_mapping_stays_idempotent() {
    let targets = table(&[("a", "/a"), ("b", "/b")]);
    let start = disk_of(&[("/real", Node::Directory), ("/a", link("/old"))]);
    let mapping = table(&[("b", "/a"), ("a", "/real")]);
    let mut once = start.clone();
    assert_eq!(apply(&targets, mapping.clone(), &mut once), Ok(()));
    let mut twice = once.clone();
    assert_eq!(apply(&targets, mapping, &mut twice), Ok(()));
    assert_eq!(twice, once);
}

#[test]
fn load_loadout_merges_then_reconciles() {
    let mut base = FileMap::new();
    base.insert(text("shell"), text("/cfg/base/shell"));
    base.insert(text("editor"), text("/cfg/base/editor"));
    let mut work = FileMap::new();
    work.insert(text("editor"), text("/cfg/work/editor"));
    let config = LoadoutsConfig {
        targets: table(&[("shell", "/home/.shell"), ("editor", "/home/.editor")]),
        loadouts: vec![
            Loadout { name: text("base"), parent: None, files: base },
            Loadout { name: text("work"), parent: Some(text("base")), files: work },
        ],
    };
    let mut disk = disk_of(&[
        ("/cfg/base/shell", file("sh")),
        ("/cfg/base/editor", file("ed")),
        ("/cfg/work/editor", file("work ed")),
        ("/home/.editor", link("/cfg/base/editor")),
    ]);
    let mut reconciler = load_loadout(&config, "work").unwrap();
    let (result, asked) = run(&mut reconciler, &mut disk);
    assert_eq!(result, Ok(()));
    assert!(!asked.contains(&Action::ProbeSource { path: text("/cfg/base/editor") }));
    assert_eq!(disk.get("/home/.shell"), Some(&link("/cfg/base/shell")));
    assert_eq!(disk.get("/home/.editor"), Some(&link("/cfg/work/editor")));
}

#[test]
fn load_loadout_fails_as_the_chain_fails() {
    let config = LoadoutsConfig {
        targets: FileMap::new(),
        loadouts: vec![Loadout { name: text("a"), parent: Some(text("a")), files: FileMap::new() }],
    };
    assert_eq!(
        load_loadout(&config, "a").unwrap_err(),
        LoadoutError::CyclicInheritance { name: text("a") }
    );
    assert_eq!(
        load_loadout(&config, "b").unwrap_err(),
        LoadoutError::UnknownLoadout { name: text("b") }
    );
}

#[test]
fn overridden_source_of_an_ancestor_need_not_exist() {
    let mut base = FileMap::new();
    base.insert(text("t"), text("/gone"));
    let mut leaf = FileMap::new();
    leaf.insert(text("t"), text("/there"));
    let config = LoadoutsConfig {
        targets: table(&[("t", "/t")]),
        loadouts: vec![
            Loadout { name: text("base"), parent: None, files: base },
            Loadout { name: text("leaf"), parent: Some(text("base")), files: leaf },
        ],
    };
    let mut disk = disk_of(&[("/there", file("x"))]);
    let mut reconciler = load_loadout(&config, "leaf").unwrap();
    assert_eq!(run(&mut reconciler, &mut disk).0, Ok(()));
    let mut reconciler = load_loadout(&config, "base").unwrap();
    assert_eq!(
        run(&mut reconciler, &mut disk).0,
        Err(LoadoutError::MissingSource { path: text("/gone") })
    );
}

#[test]
fn loading_again_after_the_cause_is_mended_goes_through() {
    let targets = table(&[("a", "/a"), ("b", "/b"), ("c", "/c")]);
    let mapping = table(&[("a", "/sa"), ("b", "/sb"), ("c", "/sc")]);
    let mut disk = disk_of(&[("/sa", file("a")), ("/sc", file("c"))]);
    assert_eq!(
        apply(&targets, mapping.clone(), &mut disk),
        Err(LoadoutError::MissingSource { path: text("/sb") })
    );
    disk.insert(text("/sb"), file("b"));
    let mut reconciler = Reconciler::new(&targets, mapping);
    let (result, asked) = run(&mut reconciler, &mut disk);
    assert_eq!(result, Ok(()));
    assert!(asked.contains(&Action::RemoveLink { path: text("/a") }));
    assert_eq!(disk.get("/a"), Some(&link("/sa")));
    assert_eq!(disk.get("/b"), Some(&link("/sb")));
    assert_eq!(disk.get("/c"), Some(&link("/sc")));
}

#[test]
fn target_that_the_mapping_does_not_name_is_left_alone() {
    let targets = table(&[("a", "/a"), ("b", "/b"), ("c", "/c")]);
    let mut disk = disk_of(&[
        ("/sa", file("a")),
        ("/b", link("/somewhere")),
        ("/c", file("mine")),
    ]);
    let mut reconciler = Reconciler::new(&targets, table(&[("a", "/sa")]));
    let (result, asked) = run(&mut reconciler, &mut disk);
    assert_eq!(result, Ok(()));
    assert_eq!(asked.len(), 3);
    assert_eq!(disk.get("/a"), Some(&link("/sa")));
    assert_eq!(disk.get("/b"), Some(&link("/somewhere")));
    assert_eq!(disk.get("/c"), Some(&file("mine")));
}

#[test]
fn two_targets_at_one_path_end_with_the_later_source() {
    let targets = table(&[("a", "/same"), ("b", "/same")]);
    let mut disk = disk_of(&[("/sa", file("a")), ("/sb", file("b"))]);
    let mapping = table(&[("a", "/sa"), ("b", "/sb")]);
    assert_eq!(apply(&targets, mapping.clone(), &mut disk), Ok(()));
    assert_eq!(disk.get("/same"), Some(&link("/sb")));
    let once = disk.clone();
    assert_eq!(apply(&targets, mapping, &mut disk), Ok(()));
    assert_eq!(disk, once);
}
