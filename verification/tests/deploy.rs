use torygg::deploy::{deploy_layers, undeploy_record, FsAction, ModLayer};
use torygg::error::{IoFault, ToryggError};
use torygg::profile::Profile;
use torygg::state::ToryggState;
use torygg::tree::{Node, Tree};

fn p(s: &str) -> Vec<String> {
    s.split('/').filter(|c| !c.is_empty()).map(|c| c.to_string()).collect()
}

fn tree(entries: &[(&str, Node)]) -> Tree {
    let mut t = Tree::new();
    for (path, node) in entries {
        t.put(&p(path), *node);
    }
    t
}

fn layer(name: &str, entries: &[(&str, Node)]) -> ModLayer {
    ModLayer { name: name.to_string(), files: tree(entries) }
}

fn contents(t: &Tree) -> Vec<(Vec<String>, Node)> {
    let mut out: Vec<(Vec<String>, Node)> =
        (0..t.len()).map(|i| (t.path(i).clone(), t.node(i))).collect();
    out.sort_by(|a, b| a.0.cmp(&b.0));
    out
}

fn show(plan: &[FsAction]) -> Vec<String> {
    plan.iter().map(|a| format!("{:?}", a)).collect()
}

fn state_with(mods: &[&str]) -> ToryggState {
    let profile = Profile::from_parts(
        "Default".to_string(),
        if mods.is_empty() { None } else { Some(mods.iter().map(|m| m.to_string()).collect()) },
    );
    ToryggState::new(profile)
}

fn target() -> Tree {
    tree(&[
        ("Skyrim.esm", Node::File(1)),
        ("Textures", Node::Dir),
        ("Textures/sky.dds", Node::File(2)),
    ])
}

#[test]
fn deploy_copies_creates_and_records() {
    let layers = vec![layer(
        "a",
        &[
            ("textures", Node::Dir),
            ("textures/SKY.dds", Node::File(10)),
            ("Meshes", Node::Dir),
            ("Meshes/rock.nif", Node::File(11)),
        ],
    )];
    let d = deploy_layers(target(), Tree::new(), &layers).unwrap();
    assert_eq!(d.record, vec![p("Textures/sky.dds"), p("Meshes"), p("Meshes/rock.nif")]);
    assert_eq!(
        show(&d.plan),
        show(&[
            FsAction::Backup(p("Textures/sky.dds")),
            FsAction::CopyFile {
                layer: 0,
                source: p("textures/SKY.dds"),
                dest: p("Textures/sky.dds")
            },
            FsAction::CreateDir(p("Meshes")),
            FsAction::CopyFile { layer: 0, source: p("Meshes/rock.nif"), dest: p("Meshes/rock.nif") },
        ])
    );
    assert_eq!(d.target.lookup(&p("Textures/sky.dds")), Some(Node::File(10)));
    assert_eq!(d.target.lookup(&p("Meshes/rock.nif")), Some(Node::File(11)));
    assert_eq!(d.target.lookup(&p("Skyrim.esm")), Some(Node::File(1)));
    assert_eq!(d.vault.lookup(&p("Textures")), Some(Node::Dir));
    assert_eq!(d.vault.lookup(&p("Textures/sky.dds")), Some(Node::File(2)));
}

#[test]
fn deploy_then_undeploy_restores_the_target() {
    let layers = vec![
        layer(
            "a",
            &[
                ("textures", Node::Dir),
                ("textures/SKY.dds", Node::File(10)),
                ("Meshes", Node::Dir),
                ("Meshes/rock.nif", Node::File(11)),
                ("skyrim.ESM", Node::File(12)),
            ],
        ),
        layer(
            "b",
            &[
                ("TEXTURES", Node::Dir),
                ("TEXTURES/sky.DDS", Node::File(20)),
                ("TEXTURES/deep", Node::Dir),
                ("TEXTURES/deep/er.dds", Node::File(21)),
                ("meshes", Node::Dir),
                ("meshes/ROCK.nif", Node::File(22)),
            ],
        ),
    ];
    let before = contents(&target());
    let d = deploy_layers(target(), Tree::new(), &layers).unwrap();
    assert_ne!(contents(&d.target), before);
    let u = undeploy_record(d.target, &d.vault, &d.record).unwrap();
    assert_eq!(contents(&u.target), before);
    assert_eq!(u.vault.len(), 0);
    assert!(u.record.is_empty());
}

#[test]
fn later_mod_overrides_earlier_mod() {
    let layers = vec![
        layer("first", &[("F.txt", Node::File(100))]),
        layer("second", &[("f.TXT", Node::File(200))]),
    ];
    let d = deploy_layers(Tree::new(), Tree::new(), &layers).unwrap();
    assert_eq!(d.target.lookup(&p("F.txt")), Some(Node::File(200)));
    assert_eq!(d.target.len(), 1);
    assert_eq!(d.record, vec![p("F.txt")]);
    let swapped = vec![
        layer("second", &[("f.TXT", Node::File(200))]),
        layer("first", &[("F.txt", Node::File(100))]),
    ];
    let d = deploy_layers(Tree::new(), Tree::new(), &swapped).unwrap();
    assert_eq!(d.target.lookup(&p("f.TXT")), Some(Node::File(100)));
}

#[test]
fn vault_keeps_the_first_content_when_several_mods_displace_a_path() {
    let layers = vec![
        layer("a", &[("skyrim.esm", Node::File(10))]),
        layer("b", &[("SKYRIM.ESM", Node::File(20))]),
        layer("c", &[("Skyrim.esm", Node::File(30))]),
    ];
    let d = deploy_layers(target(), Tree::new(), &layers).unwrap();
    assert_eq!(d.vault.len(), 1);
    assert_eq!(d.vault.lookup(&p("Skyrim.esm")), Some(Node::File(1)));
    assert_eq!(d.target.lookup(&p("Skyrim.esm")), Some(Node::File(30)));
    let backups = d.plan.iter().filter(|a| matches!(a, FsAction::Backup(_))).count();
    assert_eq!(backups, 1);
    assert_eq!(d.record, vec![p("Skyrim.esm")]);
}

#[test]
fn a_file_already_in_the_vault_is_not_stored_again() {
    let vault = tree(&[("Skyrim.esm", Node::File(77))]);
    let layers = vec![layer("a", &[("Skyrim.esm", Node::File(10))])];
    let d = deploy_layers(target(), vault, &layers).unwrap();
    assert_eq!(d.vault.lookup(&p("Skyrim.esm")), Some(Node::File(77)));
    assert!(d.plan.iter().all(|a| !matches!(a, FsAction::Backup(_))));
}

#[test]
fn a_file_written_in_the_same_pass_is_not_backed_up() {
    let layers = vec![
        layer("a", &[("new.txt", Node::File(10))]),
        layer("b", &[("new.txt", Node::File(20))]),
    ];
    let d = deploy_layers(target(), Tree::new(), &layers).unwrap();
    assert_eq!(d.vault.len(), 0);
    assert_eq!(d.target.lookup(&p("new.txt")), Some(Node::File(20)));
}

#[test]
fn deploy_with_no_mods_is_a_no_op() {
    let before = contents(&target());
    let d = deploy_layers(target(), Tree::new(), &Vec::new()).unwrap();
    assert!(d.plan.is_empty());
    assert!(d.record.is_empty());
    assert_eq!(contents(&d.target), before);
    assert_eq!(d.vault.len(), 0);

    let mut state = state_with(&[]);
    let d = state.deploy(target(), Tree::new(), &Vec::new()).unwrap();
    assert!(d.plan.is_empty());
    assert!(d.record.is_empty());
    assert!(!state.deployed());
    assert!(state.deployed_files().is_none());
    assert_eq!(contents(&d.target), before);
}

#[test]
fn the_layers_have_to_be_the_enabled_mods_in_order() {
    let file = [("x.txt", Node::File(1))];
    let refused = |mods: &[&str], names: &[&str]| {
        let mut state = state_with(mods);
        let layers: Vec<ModLayer> = names.iter().map(|n| layer(n, &file)).collect();
        let r = state.deploy(target(), Tree::new(), &layers);
        match r {
            Err(ToryggError::Other(message)) => {
                assert_eq!(message, "the layers are not the enabled mods");
                assert!(!state.deployed());
                true
            }
            Ok(_) => false,
            other => panic!("{:?}", other.err()),
        }
    };
    assert!(refused(&[], &["a"]));
    assert!(refused(&["a"], &[]));
    assert!(refused(&["a", "b"], &["b", "a"]));
    assert!(refused(&["a"], &["A"]));
    assert!(refused(&["a", "b"], &["a"]));
    assert!(!refused(&["a", "b"], &["a", "b"]));
    assert!(!refused(&[], &[]));
}

#[test]
fn the_later_mod_of_the_profile_wins_and_the_path_is_recorded_once() {
    let mut state = state_with(&["A", "B"]);
    let layers = vec![
        layer("A", &[("Textures", Node::Dir), ("Textures/Sky.dds", Node::File(100))]),
        layer("B", &[("textures", Node::Dir), ("textures/SKY.DDS", Node::File(200))]),
    ];
    let d = state.deploy(target(), Tree::new(), &layers).unwrap();
    assert_eq!(d.target.lookup(&p("Textures/sky.dds")), Some(Node::File(200)));
    assert_eq!(d.vault.lookup(&p("Textures/sky.dds")), Some(Node::File(2)));
    assert_eq!(state.deployed_files().unwrap(), &vec![p("Textures/sky.dds")]);
}

#[test]
fn deploy_of_empty_mods_leaves_the_state_undeployed() {
    let mut state = state_with(&["empty"]);
    let d = state.deploy(target(), Tree::new(), &vec![layer("empty", &[])]).unwrap();
    assert!(d.plan.is_empty());
    assert!(!state.deployed());
    assert!(state.deployed_files().is_none());
}

#[test]
fn deploy_while_deployed_is_refused() {
    let mut state = state_with(&["a"]);
    let layers = vec![layer("a", &[("x.txt", Node::File(1))])];
    let d = state.deploy(Tree::new(), Tree::new(), &layers).unwrap();
    assert!(state.deployed());
    assert_eq!(state.deployed_files().unwrap(), &vec![p("x.txt")]);
    let again = state.deploy(d.target, d.vault, &layers);
    assert!(matches!(again, Err(ToryggError::IsDeployed)));
    assert!(state.deployed());
}

#[test]
fn undeploy_while_undeployed_is_refused() {
    let mut state = state_with(&["a"]);
    let r = state.undeploy(target(), &Tree::new());
    assert!(matches!(r, Err(ToryggError::IsNotDeployed)));
}

#[test]
fn state_round_trip() {
    let mut state = state_with(&["a"]);
    let before = contents(&target());
    let layers = vec![layer(
        "a",
        &[("skyrim.esm", Node::File(9)), ("Extra", Node::Dir), ("Extra/e.txt", Node::File(8))],
    )];
    let d = state.deploy(target(), Tree::new(), &layers).unwrap();
    assert!(state.deployed());
    let u = state.undeploy(d.target, &d.vault).unwrap();
    assert!(!state.deployed());
    assert_eq!(contents(&u.target), before);
}

#[test]
fn undeploy_removes_in_reverse_order() {
    let t = tree(&[
        ("dirA", Node::Dir),
        ("dirA/file1", Node::File(1)),
        ("dirB", Node::Dir),
        ("keep.txt", Node::File(2)),
    ]);
    let record = vec![p("dirA"), p("dirA/file1"), p("dirB")];
    let u = undeploy_record(t, &Tree::new(), &record).unwrap();
    assert_eq!(
        show(&u.plan),
        show(&[
            FsAction::RemoveDir(p("dirB")),
            FsAction::RemoveFile(p("dirA/file1")),
            FsAction::RemoveDir(p("dirA")),
        ])
    );
    assert_eq!(contents(&u.target), vec![(p("keep.txt"), Node::File(2))]);
}

#[test]
fn undeploy_refuses_to_remove_a_directory_that_is_not_empty() {
    let t = tree(&[("dirA", Node::Dir), ("dirA/stranger", Node::File(1))]);
    let r = undeploy_record(t, &Tree::new(), &vec![p("dirA")]);
    assert!(matches!(r, Err(ToryggError::IOError(IoFault::DirectoryNotEmpty))));
}

#[test]
fn undeploy_of_a_missing_path_is_an_error() {
    let r = undeploy_record(Tree::new(), &Tree::new(), &vec![p("gone")]);
    assert!(matches!(r, Err(ToryggError::IOError(IoFault::NotFound))));
}

#[test]
fn undeploy_restores_the_vault_contents_first() {
    let vault = tree(&[
        ("Textures", Node::Dir),
        ("Textures/sky.dds", Node::File(2)),
        ("Skyrim.esm", Node::File(1)),
    ]);
    let t = tree(&[
        ("Textures", Node::Dir),
        ("Textures/sky.dds", Node::File(10)),
        ("Skyrim.esm", Node::File(11)),
    ]);
    let record = vec![p("Textures/sky.dds"), p("Skyrim.esm")];
    let u = undeploy_record(t, &vault, &record).unwrap();
    assert_eq!(
        show(&u.plan),
        show(&[
            FsAction::RemoveFile(p("Skyrim.esm")),
            FsAction::RemoveFile(p("Textures/sky.dds")),
            FsAction::Restore(p("Skyrim.esm")),
            FsAction::Restore(p("Textures/sky.dds")),
            FsAction::RemoveVaultDir(p("Textures")),
        ])
    );
    assert_eq!(u.target.lookup(&p("Textures/sky.dds")), Some(Node::File(2)));
    assert_eq!(u.target.lookup(&p("Skyrim.esm")), Some(Node::File(1)));
}

#[test]
fn restore_into_a_missing_directory_is_an_error() {
    let vault = tree(&[("Gone", Node::Dir), ("Gone/f", Node::File(2))]);
    let r = undeploy_record(Tree::new(), &vault, &Vec::new());
    assert!(matches!(r, Err(ToryggError::IOError(IoFault::NotFound))));
    let t = tree(&[("f", Node::Dir)]);
    let r = undeploy_record(t, &tree(&[("f", Node::File(1))]), &Vec::new());
    assert!(matches!(r, Err(ToryggError::IOError(IoFault::IsADirectory))));
}

#[test]
fn a_mod_file_over_a_directory_is_an_error() {
    let layers = vec![layer("a", &[("textures", Node::File(1))])];
    let r = deploy_layers(target(), Tree::new(), &layers);
    assert!(matches!(r, Err(ToryggError::IOError(IoFault::IsADirectory))));
}

#[test]
fn a_mod_directory_over_a_file_is_an_error() {
    let layers = vec![layer("a", &[("skyrim.esm", Node::Dir)])];
    let r = deploy_layers(target(), Tree::new(), &layers);
    assert!(matches!(r, Err(ToryggError::IOError(IoFault::AlreadyExists))));
}

#[test]
fn a_mod_entry_without_its_parent_is_an_error() {
    let mut files = Tree::new();
    files.put(&p("Nowhere/f.txt"), Node::File(1));
    let layers = vec![ModLayer { name: "a".to_string(), files }];
    let r = deploy_layers(target(), Tree::new(), &layers);
    assert!(matches!(r, Err(ToryggError::IOError(IoFault::NotFound))));
    let mut dirs = Tree::new();
    dirs.put(&p("Nowhere/inner"), Node::Dir);
    let layers = vec![ModLayer { name: "a".to_string(), files: dirs }];
    let r = deploy_layers(target(), Tree::new(), &layers);
    assert!(matches!(r, Err(ToryggError::IOError(IoFault::NotFound))));
}

#[test]
fn a_mod_entry_below_a_file_is_an_error() {
    let mut files = Tree::new();
    files.put(&p("skyrim.esm/inner"), Node::File(1));
    let layers = vec![ModLayer { name: "a".to_string(), files }];
    let r = deploy_layers(target(), Tree::new(), &layers);
    assert!(matches!(r, Err(ToryggError::IOError(IoFault::NotADirectory))));
}

#[test]
fn an_existing_directory_is_skipped_and_not_recorded() {
    let layers = vec![layer("a", &[("TEXTURES", Node::Dir)])];
    let d = deploy_layers(target(), Tree::new(), &layers).unwrap();
    assert!(d.plan.is_empty());
    assert!(d.record.is_empty());
}

#[test]
fn the_record_takes_a_path_once() {
    let mut record = vec![p("a")];
    torygg::deploy::append_if_absent(&mut record, &p("b"));
    torygg::deploy::append_if_absent(&mut record, &p("a"));
    torygg::deploy::append_if_absent(&mut record, &p("b"));
    assert_eq!(record, vec![p("a"), p("b")]);
    assert!(torygg::deploy::record_contains(&record, &p("b")));
    assert!(!torygg::deploy::record_contains(&record, &p("B")));
}

#[test]
fn round_trip_with_nested_new_directories() {
    let layers = vec![
        layer(
            "a",
            &[
                ("New", Node::Dir),
                ("New/Inner", Node::Dir),
                ("New/Inner/f.txt", Node::File(10)),
                ("textures", Node::Dir),
                ("textures/new.dds", Node::File(11)),
            ],
        ),
        layer("b", &[("new", Node::Dir), ("new/inner", Node::Dir), ("new/inner/F.TXT", Node::File(20))]),
    ];
    let before = contents(&target());
    let d = deploy_layers(target(), Tree::new(), &layers).unwrap();
    assert_eq!(d.target.lookup(&p("New/Inner/f.txt")), Some(Node::File(20)));
    assert_eq!(
        d.record,
        vec![p("New"), p("New/Inner"), p("New/Inner/f.txt"), p("Textures/new.dds")]
    );
    let u = undeploy_record(d.target, &d.vault, &d.record).unwrap();
    assert_eq!(contents(&u.target), before);
    assert_eq!(
        show(&u.plan),
        show(&[
            FsAction::RemoveFile(p("Textures/new.dds")),
            FsAction::RemoveFile(p("New/Inner/f.txt")),
            FsAction::RemoveDir(p("New/Inner")),
            FsAction::RemoveDir(p("New")),
        ])
    );
}

#[test]
fn restore_all_empties_the_vault_into_the_target() {
    let vault = tree(&[("Textures", Node::Dir), ("Textures/sky.dds", Node::File(2))]);
    let mut t = tree(&[("Textures", Node::Dir)]);
    let mut plan = Vec::new();
    torygg::deploy::restore_all(&mut t, &vault, &mut plan).unwrap();
    assert_eq!(
        show(&plan),
        show(&[FsAction::Restore(p("Textures/sky.dds")), FsAction::RemoveVaultDir(p("Textures"))])
    );
    assert_eq!(t.lookup(&p("Textures/sky.dds")), Some(Node::File(2)));
    let mut fresh = Tree::new();
    let mut plan = Vec::new();
    torygg::deploy::restore_all(&mut fresh, &Tree::new(), &mut plan).unwrap();
    assert!(plan.is_empty());
    assert_eq!(fresh.len(), 0);
}

#[test]
fn a_listing_of_a_directory_is_closed() {
    assert!(target().is_closed());
    assert!(Tree::new().is_closed());
    let mut orphan = Tree::new();
    orphan.put(&p("a/b"), Node::File(1));
    assert!(!orphan.is_closed());
    let below_file = tree(&[("f", Node::File(1)), ("f/g", Node::File(2))]);
    assert!(!below_file.is_closed());
}
