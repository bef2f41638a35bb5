use torygg::error::{IoFault, ToryggError};
use torygg::tree::{Node, Tree};
use torygg::util::find_case_insensitive_path;

fn p(s: &str) -> Vec<String> {
    s.split('/').filter(|c| !c.is_empty()).map(|c| c.to_string()).collect()
}

fn sample() -> Tree {
    let mut t = Tree::new();
    t.put(&p("Textures"), Node::Dir);
    t.put(&p("Textures/Armor"), Node::Dir);
    t.put(&p("Textures/Armor/Iron.dds"), Node::File(1));
    t.put(&p("Skyrim.esm"), Node::File(2));
    t
}

#[test]
fn resolving_a_correctly_cased_path_returns_it_unchanged() {
    let t = sample();
    for path in ["Textures", "Textures/Armor", "Textures/Armor/Iron.dds", "Skyrim.esm"] {
        assert_eq!(find_case_insensitive_path(&t, &p(path)).unwrap(), p(path));
    }
}

#[test]
fn resolving_adopts_the_casing_on_disk() {
    let t = sample();
    assert_eq!(
        find_case_insensitive_path(&t, &p("textures/ARMOR/iron.DDS")).unwrap(),
        p("Textures/Armor/Iron.dds")
    );
    assert_eq!(find_case_insensitive_path(&t, &p("SKYRIM.ESM")).unwrap(), p("Skyrim.esm"));
}

#[test]
fn resolving_keeps_the_input_casing_of_new_components() {
    let t = sample();
    assert_eq!(
        find_case_insensitive_path(&t, &p("TEXTURES/Weapons/Steel.dds")).unwrap(),
        p("Textures/Weapons/Steel.dds")
    );
}

#[test]
fn an_existing_directory_gives_its_casing_and_a_new_file_keeps_its_own() {
    let mut t = Tree::new();
    t.put(&p("TeXtUrEs"), Node::Dir);
    assert_eq!(
        find_case_insensitive_path(&t, &p("textures/New.dds")).unwrap(),
        p("TeXtUrEs/New.dds")
    );
    let again = find_case_insensitive_path(&t, &p("TeXtUrEs/New.dds")).unwrap();
    assert_eq!(again, p("TeXtUrEs/New.dds"));
}

#[test]
fn resolving_stops_matching_after_the_first_miss() {
    let mut t = sample();
    t.put(&p("Meshes"), Node::Dir);
    // "New" is not in the tree, so "armor" below it is not matched against
    // anything, although a directory of that name exists elsewhere.
    assert_eq!(
        find_case_insensitive_path(&t, &p("textures/New/armor")).unwrap(),
        p("Textures/New/armor")
    );
}

#[test]
fn resolving_takes_the_first_match_of_a_directory() {
    let mut t = Tree::new();
    t.put(&p("Data"), Node::Dir);
    t.put(&p("data"), Node::Dir);
    assert_eq!(find_case_insensitive_path(&t, &p("DATA")).unwrap(), p("Data"));
    // The path "data" exists as written, and still resolves to the entry
    // that is listed first.
    assert_eq!(find_case_insensitive_path(&t, &p("data")).unwrap(), p("Data"));
}

#[test]
fn resolving_below_a_file_is_an_error() {
    let t = sample();
    let r = find_case_insensitive_path(&t, &p("skyrim.esm/inner"));
    assert!(matches!(r, Err(ToryggError::IOError(IoFault::NotADirectory))));
}

#[test]
fn resolving_the_empty_path_gives_the_empty_path() {
    let t = sample();
    assert_eq!(find_case_insensitive_path(&t, &Vec::new()).unwrap(), Vec::<String>::new());
}

#[test]
fn resolving_folds_case_beyond_ascii() {
    let mut t = Tree::new();
    t.put(&p("ÄRGER"), Node::Dir);
    t.put(&p("Maße.txt"), Node::File(7));
    assert_eq!(find_case_insensitive_path(&t, &p("ärger")).unwrap(), p("ÄRGER"));
    assert_eq!(find_case_insensitive_path(&t, &p("MASSE.TXT")).unwrap(), p("Maße.txt"));
    assert_eq!(find_case_insensitive_path(&t, &p("arger")).unwrap(), p("arger"));
}

#[test]
fn resolving_matches_only_entries_of_the_directory_reached() {
    let mut t = Tree::new();
    t.put(&p("a"), Node::Dir);
    t.put(&p("b"), Node::Dir);
    t.put(&p("b/Inner"), Node::Dir);
    assert_eq!(find_case_insensitive_path(&t, &p("A/inner")).unwrap(), p("a/inner"));
    assert_eq!(find_case_insensitive_path(&t, &p("B/inner")).unwrap(), p("b/Inner"));
}

#[test]
fn tree_put_lookup_delete() {
    let mut t = Tree::new();
    assert_eq!(t.len(), 0);
    t.put(&p("a"), Node::Dir);
    t.put(&p("a/f"), Node::File(3));
    t.put(&p("a/f"), Node::File(4));
    assert_eq!(t.len(), 2);
    assert_eq!(t.lookup(&p("a/f")), Some(Node::File(4)));
    assert_eq!(t.lookup(&p("a")), Some(Node::Dir));
    assert_eq!(t.lookup(&p("b")), None);
    assert!(t.any_below(&p("a")));
    assert!(!t.any_below(&p("a/f")));
    assert!(t.parent_exists(&p("a/g")));
    assert!(t.parent_exists(&p("top")));
    assert!(!t.parent_exists(&p("b/g")));
    assert!(!t.parent_exists(&p("a/f/g")));
    assert!(!t.parent_exists(&Vec::new()));
    t.delete(&p("a/f"));
    assert_eq!(t.lookup(&p("a/f")), None);
    assert_eq!(t.len(), 1);
    assert_eq!(t.path(0), &p("a"));
    assert_eq!(t.node(0), Node::Dir);
    let copy = t.snapshot();
    assert_eq!(copy.len(), 1);
    assert_eq!(copy.lookup(&p("a")), Some(Node::Dir));
}

#[test]
fn resolving_below_a_directory_takes_the_directory_as_written() {
    let mut t = Tree::new();
    t.put(&p("SkyUI"), Node::Dir);
    t.put(&p("skyui"), Node::Dir);
    t.put(&p("skyui/Interface"), Node::Dir);
    let r = torygg::util::resolve_below(&t, &p("skyui"), &p("INTERFACE/a.swf")).unwrap();
    assert_eq!(r, p("skyui/Interface/a.swf"));
    let r = torygg::util::resolve_below(&t, &p("SkyUI"), &p("INTERFACE/a.swf")).unwrap();
    assert_eq!(r, p("SkyUI/INTERFACE/a.swf"));
}

#[test]
fn only_letters_have_a_case() {
    let mut t = Tree::new();
    t.put(&p("A[x]@"), Node::Dir);
    assert_eq!(find_case_insensitive_path(&t, &p("a[X]@")).unwrap(), p("A[x]@"));
    assert_eq!(find_case_insensitive_path(&t, &p("a{x}@")).unwrap(), p("a{x}@"));
    assert_eq!(find_case_insensitive_path(&t, &p("a[x]`")).unwrap(), p("a[x]`"));
    assert_eq!(find_case_insensitive_path(&t, &p("A[x]")).unwrap(), p("A[x]"));
}
