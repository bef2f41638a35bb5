use torygg::error::{IoFault, ToryggError};
use torygg::existing_directory::ExistingDirectory;
use torygg::tree::{Node, Tree};
use torygg::profile::{contains_name, Profile};
use torygg::state::ToryggState;

fn names(v: &[&str]) -> Vec<String> {
    v.iter().map(|s| s.to_string()).collect()
}

fn p(s: &str) -> Vec<String> {
    s.split('/').filter(|c| !c.is_empty()).map(|c| c.to_string()).collect()
}

#[test]
fn new_profile_has_no_mods() {
    let prof = Profile::new("Default", &names(&["Other"])).unwrap();
    assert_eq!(prof.name(), "Default");
    assert!(prof.enabled_mods().is_none());
    assert!(!prof.mod_enabled(&"a".to_string()));
}

#[test]
fn new_profile_under_a_taken_name_is_refused() {
    let r = Profile::new("Default", &names(&["Other", "Default"]));
    assert!(matches!(r, Err(ToryggError::ProfileAlreadyExists)));
    let r = ToryggState::create_profile("Default", &names(&["Default"]));
    assert!(matches!(r, Err(ToryggError::ProfileAlreadyExists)));
    assert_eq!(ToryggState::create_profile("New", &names(&["Default"])).unwrap().name(), "New");
}

#[test]
fn enabling_appends_to_the_load_order() {
    let installed = names(&["a", "b", "c"]);
    let mut prof = Profile::new("P", &Vec::new()).unwrap();
    assert_eq!(prof.enable_mod(&"b".to_string(), &installed).unwrap(), true);
    assert_eq!(prof.enable_mod(&"a".to_string(), &installed).unwrap(), true);
    assert_eq!(prof.enable_mod(&"b".to_string(), &installed).unwrap(), false);
    assert_eq!(prof.enabled_mods().unwrap(), &names(&["b", "a"]));
    assert!(prof.mod_enabled(&"a".to_string()));
    assert!(!prof.mod_enabled(&"c".to_string()));
}

#[test]
fn disabling_removes_and_the_last_mod_leaves_no_list() {
    let installed = names(&["a", "b", "c"]);
    let mut prof = Profile::from_parts("P".to_string(), Some(names(&["a", "b", "a", "c"])));
    assert_eq!(prof.disable_mod(&"a".to_string(), &installed).unwrap(), true);
    assert_eq!(prof.enabled_mods().unwrap(), &names(&["b", "c"]));
    assert_eq!(prof.disable_mod(&"a".to_string(), &installed).unwrap(), false);
    assert_eq!(prof.enabled_mods().unwrap(), &names(&["b", "c"]));
    prof.disable_mod(&"b".to_string(), &installed).unwrap();
    prof.disable_mod(&"c".to_string(), &installed).unwrap();
    assert!(prof.enabled_mods().is_none());
}

#[test]
fn disabling_in_a_profile_without_a_list_leaves_an_empty_list() {
    let mut prof = Profile::new("P", &Vec::new()).unwrap();
    assert_eq!(prof.disable_mod(&"a".to_string(), &names(&["a"])).unwrap(), false);
    assert_eq!(prof.enabled_mods().unwrap(), &Vec::<String>::new());
}

#[test]
fn a_mod_that_is_not_installed_cannot_be_toggled() {
    let mut prof = Profile::from_parts("P".to_string(), Some(names(&["a"])));
    let r = prof.set_mod_enabled(&"ghost".to_string(), true, &names(&["a"]));
    assert!(matches!(r, Err(ToryggError::Other(_))));
    let r = prof.disable_mod(&"ghost".to_string(), &names(&["a"]));
    assert!(matches!(r, Err(ToryggError::Other(_))));
    assert_eq!(prof.enabled_mods().unwrap(), &names(&["a"]));
}

#[test]
fn profile_directories() {
    let prof = Profile::new("Main", &Vec::new()).unwrap();
    let mut disk = Tree::new();
    disk.put(&p("config"), Node::Dir);
    disk.put(&p("config/Taken"), Node::File(1));
    let config = ExistingDirectory::try_from_path(&disk, p("config")).unwrap();
    let (dir, made) = prof.dir(&config, &mut disk).unwrap();
    assert_eq!(dir.path(), &p("config/Main"));
    assert!(made);
    assert_eq!(disk.lookup(&p("config/Main")), Some(Node::Dir));
    let (dir, made) = prof.dir(&config, &mut disk).unwrap();
    assert_eq!(dir.path(), &p("config/Main"));
    assert!(!made);
    let taken = Profile::new("Taken", &Vec::new()).unwrap();
    match taken.dir(&config, &mut disk) {
        Err(ToryggError::NotADirectory(path)) => assert_eq!(path, "/config/Taken"),
        other => panic!("{:?}", other),
    }
    let mut gone = Tree::new();
    assert!(matches!(
        prof.dir(&config, &mut gone),
        Err(ToryggError::IOError(IoFault::NotFound))
    ));
    assert_eq!(prof.mods_dir(&p("/home/u/.local/share/torygg")), p("/home/u/.local/share/torygg/mods"));
}

#[test]
fn contains_name_finds_exact_names_only() {
    assert!(contains_name(&names(&["a", "B"]), &"B".to_string()));
    assert!(!contains_name(&names(&["a", "B"]), &"b".to_string()));
    assert!(!contains_name(&Vec::new(), &"b".to_string()));
}

#[test]
fn state_toggles_mods_only_while_undeployed() {
    let installed = names(&["a", "b"]);
    let mut state = ToryggState::new(Profile::new("P", &Vec::new()).unwrap());
    assert!(!state.deployed());
    assert!(state.active_mods().is_none());
    state.activate_mod(&"a".to_string(), &installed).unwrap();
    state.activate_mod(&"b".to_string(), &installed).unwrap();
    assert!(state.mod_active(&"a".to_string()));
    state.deactivate_mod(&"a".to_string(), &installed).unwrap();
    assert_eq!(state.active_mods().unwrap(), &names(&["b"]));
    assert!(matches!(
        state.activate_mod(&"ghost".to_string(), &installed),
        Err(ToryggError::Other(_))
    ));

    let mut deployed = ToryggState::from_parts(
        Profile::from_parts("P".to_string(), Some(names(&["b"]))),
        Some(vec![p("x")]),
    );
    assert!(deployed.deployed());
    assert!(matches!(
        deployed.activate_mod(&"a".to_string(), &installed),
        Err(ToryggError::IsDeployed)
    ));
    assert!(matches!(
        deployed.deactivate_mod(&"b".to_string(), &installed),
        Err(ToryggError::IsDeployed)
    ));
    assert!(matches!(
        deployed.set_profile(Profile::new("Q", &Vec::new()).unwrap()),
        Err(ToryggError::IsDeployed)
    ));
    assert_eq!(deployed.profile().name(), "P");
    assert_eq!(deployed.active_mods().unwrap(), &names(&["b"]));
}

#[test]
fn state_profile_can_be_replaced_and_changed_in_place() {
    let mut state = ToryggState::new(Profile::new("P", &Vec::new()).unwrap());
    state.set_profile(Profile::new("Q", &Vec::new()).unwrap()).unwrap();
    assert_eq!(state.profile().name(), "Q");
    state.profile_mut().enable_mod(&"a".to_string(), &names(&["a"])).unwrap();
    assert!(state.mod_active(&"a".to_string()));
}

#[test]
fn read_or_new_prefers_the_stored_state() {
    let stored = ToryggState::from_parts(Profile::new("S", &Vec::new()).unwrap(), Some(vec![p("f")]));
    let state = ToryggState::read_or_new(Some(stored), Profile::new("F", &Vec::new()).unwrap());
    assert_eq!(state.profile().name(), "S");
    assert!(state.deployed());
    let state = ToryggState::read_or_new(None, Profile::new("F", &Vec::new()).unwrap());
    assert_eq!(state.profile().name(), "F");
    assert!(!state.deployed());
}

#[test]
fn uninstalling_disables_the_mod_in_every_profile() {
    let profiles = vec![
        Profile::from_parts("A".to_string(), Some(names(&["x", "y"]))),
        Profile::from_parts("B".to_string(), Some(names(&["x"]))),
        Profile::from_parts("C".to_string(), None),
    ];
    let out = ToryggState::uninstall_mod(&"x".to_string(), profiles, &names(&["x", "y"])).unwrap();
    assert_eq!(out.len(), 3);
    assert_eq!(out[0].name(), "A");
    assert_eq!(out[0].enabled_mods().unwrap(), &names(&["y"]));
    assert_eq!(out[1].name(), "B");
    assert!(out[1].enabled_mods().is_none());
    assert_eq!(out[2].enabled_mods().unwrap(), &Vec::<String>::new());
    let profiles = vec![Profile::from_parts("A".to_string(), None)];
    let r = ToryggState::uninstall_mod(&"ghost".to_string(), profiles, &names(&["x"]));
    assert!(matches!(r, Err(ToryggError::Other(_))));
    assert!(ToryggState::uninstall_mod(&"ghost".to_string(), Vec::new(), &Vec::new()).unwrap().is_empty());
}

#[test]
fn profiles_are_the_same_by_name_and_mods() {
    let a = Profile::from_parts("P".to_string(), Some(names(&["x", "y"])));
    assert!(a.same(&Profile::from_parts("P".to_string(), Some(names(&["x", "y"])))));
    assert!(!a.same(&Profile::from_parts("P".to_string(), Some(names(&["y", "x"])))));
    assert!(!a.same(&Profile::from_parts("Q".to_string(), Some(names(&["x", "y"])))));
    assert!(!a.same(&Profile::from_parts("P".to_string(), None)));
    let none = Profile::from_parts("P".to_string(), None);
    assert!(none.same(&Profile::from_parts("P".to_string(), None)));
    assert!(!none.same(&Profile::from_parts("P".to_string(), Some(Vec::new()))));
}

#[test]
fn deleting_the_profile_in_use_falls_back() {
    let current = Profile::from_parts("P".to_string(), None);
    let other = Profile::from_parts("Q".to_string(), None);
    let mut state = ToryggState::new(Profile::from_parts("P".to_string(), None));
    let fallback = Profile::from_parts("Default".to_string(), None);
    assert_eq!(state.delete_profile(&other, fallback).unwrap(), false);
    assert_eq!(state.profile().name(), "P");
    let fallback = Profile::from_parts("Default".to_string(), None);
    assert_eq!(state.delete_profile(&current, fallback).unwrap(), true);
    assert_eq!(state.profile().name(), "Default");

    let mut deployed =
        ToryggState::from_parts(Profile::from_parts("P".to_string(), None), Some(vec![p("f")]));
    let fallback = Profile::from_parts("Default".to_string(), None);
    assert!(matches!(deployed.delete_profile(&current, fallback), Err(ToryggError::IsDeployed)));
    let fallback = Profile::from_parts("Default".to_string(), None);
    assert_eq!(deployed.delete_profile(&other, fallback).unwrap(), false);
    assert_eq!(deployed.profile().name(), "P");
}
