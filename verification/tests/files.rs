use config_loader::files::FileMap;

fn text(s: &str) -> String {
    s.to_string()
}

#[test]
fn new_table_is_empty() {
    let table = FileMap::new();
    assert_eq!(table.len(), 0);
    assert_eq!(table.get("vimrc"), None);
    assert_eq!(table.entry(0), None);
}

#[test]
fn insert_then_get() {
    let mut table = FileMap::new();
    assert_eq!(table.insert(text("vimrc"), text("/home/u/.vimrc")), None);
    assert_eq!(table.insert(text("bashrc"), text("/home/u/.bashrc")), None);
    assert_eq!(table.len(), 2);
    assert_eq!(table.get("vimrc"), Some(&text("/home/u/.vimrc")));
    assert_eq!(table.get("bashrc"), Some(&text("/home/u/.bashrc")));
    assert_eq!(table.get("zshrc"), None);
}

#[test]
fn insert_again_replaces_in_place() {
    let mut table = FileMap::new();
    table.insert(text("a"), text("1"));
    table.insert(text("b"), text("2"));
    table.insert(text("c"), text("3"));
    assert_eq!(table.insert(text("b"), text("two")), Some(text("2")));
    assert_eq!(table.len(), 3);
    assert_eq!(table.entry(0), Some((&text("a"), &text("1"))));
    assert_eq!(table.entry(1), Some((&text("b"), &text("two"))));
    assert_eq!(table.entry(2), Some((&text("c"), &text("3"))));
    assert_eq!(table.entry(3), None);
}

#[test]
fn keys_are_case_sensitive() {
    let mut table = FileMap::new();
    table.insert(text("Shell"), text("upper"));
    table.insert(text("shell"), text("lower"));
    assert_eq!(table.len(), 2);
    assert_eq!(table.get("Shell"), Some(&text("upper")));
    assert_eq!(table.get("shell"), Some(&text("lower")));
    assert_eq!(table.get("SHELL"), None);
}

#[test]
fn empty_key_and_empty_path_are_entries_like_any_other() {
    let mut table = FileMap::new();
    table.insert(text(""), text(""));
    assert_eq!(table.len(), 1);
    assert_eq!(table.get(""), Some(&text("")));
}

#[test]
fn clone_holds_the_same_entries() {
    let mut table = FileMap::new();
    table.insert(text("a"), text("1"));
    table.insert(text("b"), text("2"));
    let mut copy = table.clone();
    assert_eq!(copy.len(), 2);
    assert_eq!(copy.entry(0), Some((&text("a"), &text("1"))));
    assert_eq!(copy.entry(1), Some((&text("b"), &text("2"))));
    copy.insert(text("a"), text("changed"));
    assert_eq!(table.get("a"), Some(&text("1")));
    assert_eq!(copy.get("a"), Some(&text("changed")));
}
