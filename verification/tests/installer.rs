use torygg::deploy::FsAction;
use torygg::error::{IoFault, ToryggError};
use torygg::fomod::{
    get_install_steps, install_steps, split_path, FileGroup, FileOrFolder, GroupType, InstallStep,
    MarkupEvent, Plugin,
};
use torygg::fomod_install::{fomod_install, module_config};
use torygg::modmanager::{
    create_mod, find_fomod, find_mod_root, install_all, install_mod, installed_mods, mod_installed,
    Installation,
};
use torygg::state::ToryggState;
use torygg::tree::{Node, Tree};

fn p(s: &str) -> Vec<String> {
    s.split('/').filter(|c| !c.is_empty()).map(|c| c.to_string()).collect()
}

fn tree(entries: &[(&str, Node)]) -> Tree {
    let mut t = Tree::new();
    for (path, node) in entries {
        t.put(&p(path), *node);
    }
    t
}

fn show(plan: &[FsAction]) -> Vec<String> {
    plan.iter().map(|a| format!("{:?}", a)).collect()
}

fn files_of(plugin: &Plugin) -> Vec<String> {
    plugin.files().unwrap().iter().map(|f| format!("{:?}", f)).collect()
}

const CONFIG: &str = r#"<?xml version="1.0" encoding="UTF-8"?>
<config>
  <moduleName>Example</moduleName>
  <installSteps order="Explicit">
    <installStep name="Textures">
      <optionalFileGroups>
        <group name="Resolution" type="SelectExactlyOne">
          <plugins>
            <plugin name="2K">
              <description>Two thousand pixels.</description>
              <files>
                <folder source="tex\2k" destination="Textures" />
                <file source="extra\readme.txt" destination="Docs\readme.txt" />
              </files>
            </plugin>
            <plugin name="None">
              <description>Nothing.</description>
            </plugin>
          </plugins>
        </group>
        <group name="Extras" type="SelectAny">
          <plugins>
            <plugin name="Patch">
              <files>
                <file source="patch.esp" destination="patch.esp" />
              </files>
            </plugin>
          </plugins>
        </group>
      </optionalFileGroups>
    </installStep>
    <installStep name="Finish">
    </installStep>
  </installSteps>
</config>
"#;

#[test]
fn install_steps_are_read_from_the_description() {
    let steps = get_install_steps(CONFIG).unwrap();
    assert_eq!(steps.len(), 2);
    assert_eq!(steps[0].name(), "Textures");
    let groups = steps[0].file_groups().unwrap();
    assert_eq!(groups.len(), 2);
    assert_eq!(groups[0].name(), "Resolution");
    assert_eq!(*groups[0].group_type(), GroupType::SelectExactlyOne);
    assert_eq!(*groups[1].group_type(), GroupType::SelectAny);
    let plugins = groups[0].plugins();
    assert_eq!(plugins.len(), 2);
    assert_eq!(plugins[0].name(), "2K");
    assert_eq!(plugins[0].description().unwrap(), "Two thousand pixels.");
    assert_eq!(
        files_of(&plugins[0]),
        vec![
            format!("{:?}", FileOrFolder::Folder { source: p("tex/2k"), destination: p("Textures") }),
            format!(
                "{:?}",
                FileOrFolder::File { source: p("extra/readme.txt"), destination: p("Docs/readme.txt") }
            ),
        ]
    );
    assert_eq!(plugins[1].name(), "None");
    assert!(plugins[1].files().is_none());
    assert_eq!(groups[1].plugins()[0].name(), "Patch");
    assert!(groups[1].plugins()[0].description().is_none());
    assert_eq!(steps[1].name(), "Finish");
    assert!(steps[1].file_groups().is_none());
}

#[test]
fn a_description_that_is_not_markup_is_an_error() {
    assert!(matches!(get_install_steps("<config><open></config>"), Err(ToryggError::Other(_))));
    assert!(matches!(get_install_steps("no markup at all"), Err(ToryggError::Other(_))));
}

#[test]
fn a_malformed_description_is_an_error() {
    let unknown_type = r#"<installStep name="s"><group name="g" type="SelectSome"></group></installStep>"#;
    assert!(matches!(get_install_steps(unknown_type), Err(ToryggError::Other(_))));
    let file_outside = r#"<installStep name="s"><file source="a" destination="b" /></installStep>"#;
    assert!(matches!(get_install_steps(file_outside), Err(ToryggError::Other(_))));
    let nameless = r#"<installStep></installStep>"#;
    assert!(matches!(get_install_steps(nameless), Err(ToryggError::Other(_))));
    let group_outside = r#"<group name="g" type="SelectAny"></group>"#;
    assert!(matches!(get_install_steps(group_outside), Err(ToryggError::Other(_))));
}

#[test]
fn install_steps_from_events() {
    let start = |name: &str, values: &[&str]| MarkupEvent::Start {
        name: name.to_string(),
        values: values.iter().map(|v| v.to_string()).collect(),
    };
    let end = |name: &str| MarkupEvent::End { name: name.to_string() };
    let events = vec![
        start("installStep", &["One"]),
        MarkupEvent::Other,
        start("group", &["G", "SelectAll"]),
        start("plugin", &["P"]),
        MarkupEvent::Characters("ignored".to_string()),
        start("description", &[]),
        MarkupEvent::Characters("Described".to_string()),
        end("description"),
        start("file", &["a\\b.txt", "c\\d.txt"]),
        end("file"),
        end("plugin"),
        end("group"),
        end("installStep"),
    ];
    let steps = install_steps(&events).unwrap();
    assert_eq!(steps.len(), 1);
    let group = &steps[0].file_groups().unwrap()[0];
    assert_eq!(*group.group_type(), GroupType::SelectAll);
    let plugin = &group.plugins()[0];
    assert_eq!(plugin.description().unwrap(), "Described");
    assert_eq!(
        files_of(plugin),
        vec![format!(
            "{:?}",
            FileOrFolder::File { source: p("a/b.txt"), destination: p("c/d.txt") }
        )]
    );
    assert!(matches!(install_steps(&vec![end("plugin")]), Err(ToryggError::Other(_))));
    assert!(install_steps(&Vec::new()).unwrap().is_empty());
}

#[test]
fn group_types_by_name() {
    assert_eq!(GroupType::from_name("SelectExactlyOne"), Some(GroupType::SelectExactlyOne));
    assert_eq!(GroupType::from_name("SelectAny"), Some(GroupType::SelectAny));
    assert_eq!(GroupType::from_name("SelectAll"), Some(GroupType::SelectAll));
    assert_eq!(GroupType::from_name("selectall"), None);
}

#[test]
fn builders_add_in_order() {
    let mut plugin = Plugin::new("P".to_string());
    assert!(plugin.files().is_none());
    assert!(plugin.description().is_none());
    plugin.set_description("d".to_string());
    plugin.push_file(FileOrFolder::File { source: p("a"), destination: p("b") });
    plugin.push_file(FileOrFolder::Folder { source: p("c"), destination: p("d") });
    assert_eq!(plugin.files().unwrap().len(), 2);
    assert!(matches!(plugin.files().unwrap()[1], FileOrFolder::Folder { .. }));
    let mut group = FileGroup::new("G".to_string(), GroupType::SelectAny);
    assert!(group.plugins().is_empty());
    group.push(plugin);
    group.push(Plugin::new("Q".to_string()));
    assert_eq!(group.plugins()[1].name(), "Q");
    let mut step = InstallStep::with_name("S".to_string());
    assert!(step.file_groups().is_none());
    step.add_file_group(group);
    step.add_file_group(FileGroup::new("H".to_string(), GroupType::SelectAll));
    assert_eq!(step.file_groups().unwrap()[1].name(), "H");
    assert_eq!(step.name(), "S");
}

#[test]
fn split_path_drops_empty_components() {
    assert_eq!(split_path("a/b/c"), p("a/b/c"));
    assert_eq!(split_path("/a//b/"), p("a/b"));
    assert_eq!(split_path(""), Vec::<String>::new());
    assert_eq!(split_path("single"), p("single"));
}

#[test]
fn installed_mods_are_the_directories_of_the_mods_directory() {
    let mods = tree(&[
        ("SkyUI", Node::Dir),
        ("SkyUI/interface", Node::Dir),
        ("notes.txt", Node::File(1)),
        ("USSEP", Node::Dir),
    ]);
    assert_eq!(installed_mods(&mods), vec!["SkyUI".to_string(), "USSEP".to_string()]);
    assert_eq!(ToryggState::mods(&mods), vec!["SkyUI".to_string(), "USSEP".to_string()]);
    assert!(mod_installed(&"SkyUI".to_string(), &mods));
    assert!(!mod_installed(&"skyui".to_string(), &mods));
    assert!(!mod_installed(&"notes.txt".to_string(), &mods));
    assert!(!mod_installed(&"interface".to_string(), &mods));
}

#[test]
fn create_mod_makes_a_directory_once() {
    let mut mods = tree(&[("file", Node::File(1))]);
    create_mod(&"New".to_string(), &mut mods).unwrap();
    assert_eq!(mods.lookup(&p("New")), Some(Node::Dir));
    assert!(matches!(create_mod(&"New".to_string(), &mut mods), Err(ToryggError::ModAlreadyExists)));
    assert!(matches!(
        ToryggState::create_mod(&"file".to_string(), &mut mods),
        Err(ToryggError::NotADirectory(_))
    ));
    assert_eq!(mods.len(), 2);
}

#[test]
fn the_mod_root_lies_below_wrapping_directories() {
    let t = tree(&[
        ("MyMod", Node::Dir),
        ("MyMod/data", Node::Dir),
        ("MyMod/data/a.esp", Node::File(1)),
        ("MyMod/data/textures", Node::Dir),
    ]);
    assert_eq!(find_mod_root(&t, "mymod"), p("MyMod/data"));
    assert_eq!(find_mod_root(&t, "other"), Vec::<String>::new());
    let flat = tree(&[("a.esp", Node::File(1)), ("Data", Node::Dir)]);
    assert_eq!(find_mod_root(&flat, "x"), Vec::<String>::new());
    let single_file = tree(&[("Data", Node::File(1))]);
    assert_eq!(find_mod_root(&single_file, "x"), Vec::<String>::new());
    assert_eq!(find_mod_root(&Tree::new(), "x"), Vec::<String>::new());
}

#[test]
fn install_all_copies_everything_below_the_root() {
    let t = tree(&[
        ("Wrap", Node::Dir),
        ("Wrap/a.esp", Node::File(1)),
        ("Wrap/tex", Node::Dir),
        ("Wrap/tex/t.dds", Node::File(2)),
        ("outside.txt", Node::File(3)),
    ]);
    let mut mods = Tree::new();
    let plan = install_all(&t, &p("Wrap"), &"M".to_string(), &mut mods).unwrap();
    assert_eq!(
        show(&plan),
        show(&[
            FsAction::CreateDir(p("M")),
            FsAction::CopyFile { layer: 0, source: p("Wrap/a.esp"), dest: p("M/a.esp") },
            FsAction::CreateDir(p("M/tex")),
            FsAction::CopyFile { layer: 0, source: p("Wrap/tex/t.dds"), dest: p("M/tex/t.dds") },
        ])
    );
    assert_eq!(mods.lookup(&p("M/tex/t.dds")), Some(Node::File(2)));
    assert_eq!(mods.lookup(&p("M/outside.txt")), None);
}

#[test]
fn install_all_fails_on_what_is_in_the_way() {
    let t = tree(&[("tex", Node::Dir)]);
    let mut mods = tree(&[("M", Node::Dir), ("M/tex", Node::Dir)]);
    let r = install_all(&t, &Vec::new(), &"M".to_string(), &mut mods);
    assert!(matches!(r, Err(ToryggError::IOError(IoFault::AlreadyExists))));
    let mut mods = tree(&[("M", Node::File(1))]);
    let r = install_all(&t, &Vec::new(), &"M".to_string(), &mut mods);
    assert!(matches!(r, Err(ToryggError::IOError(IoFault::NotADirectory))));
    let t = tree(&[("f", Node::File(1))]);
    let mut mods = tree(&[("M", Node::Dir), ("M/f", Node::Dir)]);
    let r = install_all(&t, &Vec::new(), &"M".to_string(), &mut mods);
    assert!(matches!(r, Err(ToryggError::IOError(IoFault::IsADirectory))));
    let mut orphan = Tree::new();
    orphan.put(&p("deep/f"), Node::File(1));
    let mut mods = Tree::new();
    let r = install_all(&orphan, &Vec::new(), &"M".to_string(), &mut mods);
    assert!(matches!(r, Err(ToryggError::IOError(IoFault::NotFound))));
}

#[test]
fn install_mod_chooses_between_whole_and_scripted() {
    let plain = tree(&[("Data", Node::Dir), ("Data/a.esp", Node::File(1))]);
    let mut mods = Tree::new();
    match install_mod("archive", &"M".to_string(), &plain, &mut mods).unwrap() {
        Installation::Whole(plan) => assert_eq!(
            show(&plan),
            show(&[
                FsAction::CreateDir(p("M")),
                FsAction::CopyFile { layer: 0, source: p("Data/a.esp"), dest: p("M/a.esp") },
            ])
        ),
        other => panic!("{:?}", other),
    }
    let again = install_mod("archive", &"M".to_string(), &plain, &mut mods);
    assert!(matches!(again, Err(ToryggError::ModAlreadyExists)));

    let scripted = tree(&[
        ("Archive", Node::Dir),
        ("Archive/FOMod", Node::Dir),
        ("Archive/FOMod/moduleconfig.XML", Node::File(1)),
        ("Archive/a.esp", Node::File(2)),
    ]);
    let mut mods = Tree::new();
    match ToryggState::install_mod("archive", &"S".to_string(), &scripted, &mut mods).unwrap() {
        Installation::Scripted { mod_root, fomod_dir } => {
            assert_eq!(mod_root, p("Archive"));
            assert_eq!(fomod_dir, p("Archive/FOMod"));
            assert_eq!(module_config(&scripted, &fomod_dir), Some(2));
        }
        other => panic!("{:?}", other),
    }
    assert_eq!(mods.len(), 0);
    assert_eq!(find_fomod(&scripted, &p("Archive")), Some(1));
    assert_eq!(find_fomod(&scripted, &Vec::new()), None);
    assert_eq!(module_config(&scripted, &p("Archive")), None);
}

#[test]
fn chosen_plugins_are_installed_in_order() {
    let extracted = tree(&[
        ("root", Node::Dir),
        ("root/tex", Node::Dir),
        ("root/tex/2k", Node::Dir),
        ("root/tex/2k/sky.dds", Node::File(1)),
        ("root/tex/2k/sub", Node::Dir),
        ("root/tex/2k/sub/deep.dds", Node::File(2)),
        ("root/extra", Node::Dir),
        ("root/extra/readme.txt", Node::File(3)),
    ]);
    let mut first = Plugin::new("files".to_string());
    first.push_file(FileOrFolder::File {
        source: p("extra/readme.txt"),
        destination: p("Docs/Sub/readme.txt"),
    });
    let mut second = Plugin::new("folder".to_string());
    second.push_file(FileOrFolder::Folder { source: p("tex/2k"), destination: Vec::new() });
    let empty = Plugin::new("nothing".to_string());
    let mut third = Plugin::new("recased".to_string());
    third.push_file(FileOrFolder::File {
        source: p("extra/readme.txt"),
        destination: p("docs/SUB/README.TXT"),
    });
    let mut mods = Tree::new();
    let plan = fomod_install(
        &extracted,
        &p("root"),
        &"M".to_string(),
        &vec![&first, &empty, &second, &third],
        &mut mods,
    )
    .unwrap();
    assert_eq!(
        show(&plan),
        show(&[
            FsAction::CreateDir(p("M")),
            FsAction::CreateDir(p("M/Docs")),
            FsAction::CreateDir(p("M/Docs/Sub")),
            FsAction::CopyFile {
                layer: 0,
                source: p("root/extra/readme.txt"),
                dest: p("M/Docs/Sub/readme.txt")
            },
            FsAction::CopyFile {
                layer: 0,
                source: p("root/tex/2k/sky.dds"),
                dest: p("M/sky.dds")
            },
            FsAction::CreateDir(p("M/sub")),
            FsAction::CopyFile {
                layer: 0,
                source: p("root/tex/2k/sub/deep.dds"),
                dest: p("M/sub/deep.dds")
            },
            FsAction::CopyFile {
                layer: 0,
                source: p("root/extra/readme.txt"),
                dest: p("M/Docs/Sub/readme.txt")
            },
        ])
    );
    assert_eq!(mods.lookup(&p("M/sub/deep.dds")), Some(Node::File(2)));
}

#[test]
fn a_chosen_file_that_is_missing_is_an_error() {
    let mut plugin = Plugin::new("p".to_string());
    plugin.push_file(FileOrFolder::File { source: p("ghost.txt"), destination: p("g.txt") });
    let mut mods = Tree::new();
    let r = fomod_install(&Tree::new(), &Vec::new(), &"M".to_string(), &vec![&plugin], &mut mods);
    assert!(matches!(r, Err(ToryggError::IOError(IoFault::NotFound))));
    let mut mods = tree(&[("M", Node::File(1))]);
    let r = fomod_install(&Tree::new(), &Vec::new(), &"M".to_string(), &Vec::new(), &mut mods);
    assert!(matches!(r, Err(ToryggError::IOError(IoFault::NotADirectory))));
}
