use torygg::applauncher::{
    backup_path, join_paths, render, AppLauncher, GameDirs, ToolOutcome,
};
use torygg::error::ToryggError;
use torygg::profile::Profile;

fn p(s: &str) -> Vec<String> {
    s.split('/').filter(|c| !c.is_empty()).map(|c| c.to_string()).collect()
}

fn profile(mods: &[&str]) -> Profile {
    Profile::from_parts(
        "Default".to_string(),
        if mods.is_empty() { None } else { Some(mods.iter().map(|m| m.to_string()).collect()) },
    )
}

const OK: ToolOutcome = ToolOutcome::Exited { success: true };
const FAILED: ToolOutcome = ToolOutcome::Exited { success: false };

#[test]
fn backup_path_is_the_sibling_with_a_tilde() {
    assert_eq!(backup_path(&p("/games/Skyrim/Data")).unwrap(), p("/games/Skyrim/Data~"));
    assert_eq!(backup_path(&p("Data")).unwrap(), p("Data~"));
    assert!(backup_path(&Vec::new()).is_none());
}

#[test]
fn render_and_join() {
    assert_eq!(render(&p("a/b/c")), "/a/b/c");
    assert_eq!(render(&Vec::new()), "");
    assert_eq!(join_paths(&vec![p("a/b"), p("c")]).unwrap(), "/a/b:/c");
    assert_eq!(join_paths(&vec![p("only")]).unwrap(), "/only");
    assert_eq!(join_paths(&Vec::new()).unwrap(), "");
    assert!(join_paths(&vec![p("a"), p("b:c")]).is_none());
}

#[test]
fn mount_path_builds_the_options_with_the_backup_last() {
    let prof = profile(&[]);
    let launcher = AppLauncher::new(&prof);
    let mut lower = vec![p("/mods/high"), p("/mods/low")];
    let plan = launcher
        .mount_path(&p("/games/Skyrim/Data"), &mut lower, &p("/data/Overwrite"), &p("/data/.OverlayFS"))
        .unwrap();
    assert_eq!(plan.target, p("/games/Skyrim/Data"));
    assert_eq!(plan.backup, p("/games/Skyrim/Data~"));
    assert_eq!(
        plan.options,
        "lowerdir=/mods/high:/mods/low:/games/Skyrim/Data~,upperdir=/data/Overwrite,workdir=/data/.OverlayFS"
    );
    assert_eq!(lower, vec![p("/mods/high"), p("/mods/low"), p("/games/Skyrim/Data~")]);
    assert!(launcher.mounted_paths().is_empty());
}

#[test]
fn mount_path_without_a_last_component_is_an_error() {
    let prof = profile(&[]);
    let launcher = AppLauncher::new(&prof);
    let mut lower = vec![p("/mods/a")];
    let r = launcher.mount_path(&Vec::new(), &mut lower, &p("/u"), &p("/w"));
    assert!(matches!(r, Err(ToryggError::Other(_))));
    assert_eq!(lower, vec![p("/mods/a")]);
}

#[test]
fn mount_path_with_a_colon_in_a_lower_path_is_an_error() {
    let prof = profile(&[]);
    let launcher = AppLauncher::new(&prof);
    let mut lower = vec![p("/mods/a:b")];
    let r = launcher.mount_path(&p("/t/Data"), &mut lower, &p("/u"), &p("/w"));
    assert!(matches!(r, Err(ToryggError::Other(_))));
    let mut lower = Vec::new();
    let r = launcher.mount_path(&p("/t/Da:ta"), &mut lower, &p("/u"), &p("/w"));
    assert!(matches!(r, Err(ToryggError::Other(_))));
}

#[test]
fn mount_all_plans_data_config_and_appdata() {
    let prof = profile(&["SkyUI", "USSEP"]);
    let launcher = AppLauncher::new(&prof);
    let dirs = GameDirs {
        data_path: p("/g/Data"),
        config_path: p("/pfx/My Games/Skyrim"),
        appdata_path: p("/pfx/AppData/Skyrim"),
        mods_path: p("/d/Mods"),
        overwrite_path: p("/d/Overwrite"),
        data_dir: p("/d"),
    };
    let plans = launcher.mount_all(&dirs).unwrap();
    assert_eq!(plans.len(), 3);
    assert_eq!(
        plans[0].options,
        "lowerdir=/d/Mods/USSEP:/d/Mods/SkyUI:/g/Data~,upperdir=/d/Overwrite,workdir=/d/.OverlayFS"
    );
    assert_eq!(plans[0].target, p("/g/Data"));
    assert_eq!(
        plans[1].options,
        "lowerdir=/pfx/My Games/Skyrim~,upperdir=/d/Configs,workdir=/d/.OverlayFS"
    );
    assert_eq!(
        plans[2].options,
        "lowerdir=/pfx/AppData/Skyrim~,upperdir=/d/Configs,workdir=/d/.OverlayFS"
    );
    assert_eq!(plans[2].backup, p("/pfx/AppData/Skyrim~"));
}

#[test]
fn a_mount_counts_only_when_the_tool_succeeds() {
    let prof = profile(&[]);
    let mut launcher = AppLauncher::new(&prof);
    assert!(matches!(
        launcher.confirm_mount(&p("/a"), ToolOutcome::SpawnFailed),
        Err(ToryggError::FailedToSpawnChild)
    ));
    assert!(matches!(
        launcher.confirm_mount(&p("/a"), ToolOutcome::WaitFailed),
        Err(ToryggError::ChildFailed)
    ));
    assert!(matches!(launcher.confirm_mount(&p("/a"), FAILED), Err(ToryggError::ChildFailed)));
    assert!(launcher.mounted_paths().is_empty());
    assert_eq!(launcher.displaced_paths(), &vec![p("/a"), p("/a"), p("/a")]);
    assert!(launcher.confirm_mount(&p("/b"), OK).is_ok());
    assert!(launcher.confirm_mount(&p("/c"), OK).is_ok());
    assert_eq!(launcher.mounted_paths(), &vec![p("/b"), p("/c")]);
    assert_eq!(launcher.displaced_paths().len(), 3);
}

#[test]
fn a_mount_that_failed_is_reconciled_by_the_next_round() {
    let prof = profile(&[]);
    let mut launcher = AppLauncher::new(&prof);
    let target = p("/games/Skyrim/Data");
    let mut lower = Vec::new();
    let plan = launcher.mount_path(&target, &mut lower, &p("/u"), &p("/w")).unwrap();
    assert!(launcher.confirm_mount(&plan.target, ToolOutcome::SpawnFailed).is_err());
    assert!(launcher.mounted_paths().is_empty());
    assert_eq!(launcher.displaced_paths(), &vec![target.clone()]);
    let done = launcher.unmount_all(&Vec::new());
    assert!(done.result.is_ok());
    assert_eq!(done.restored, vec![target.clone()]);
    assert_eq!(backup_path(&done.restored[0]).unwrap(), plan.backup);
    assert!(launcher.displaced_paths().is_empty());
    let again = launcher.unmount_all(&Vec::new());
    assert!(again.restored.is_empty());
}

#[test]
fn unmounted_paths_come_before_those_moved_aside() {
    let prof = profile(&[]);
    let mut launcher = AppLauncher::new(&prof);
    launcher.confirm_mount(&p("/one"), OK).unwrap();
    assert!(launcher.confirm_mount(&p("/two"), FAILED).is_err());
    launcher.confirm_mount(&p("/three"), OK).unwrap();
    let done = launcher.unmount_all(&vec![OK, ToolOutcome::WaitFailed]);
    assert_eq!(done.restored, vec![p("/one"), p("/two")]);
    assert_eq!(launcher.mounted_paths(), &vec![p("/three")]);
    assert!(launcher.displaced_paths().is_empty());
}

#[test]
fn mount_all_reports_what_stops_the_first_mount_that_cannot_be_set_up() {
    let prof = profile(&["a"]);
    let launcher = AppLauncher::new(&prof);
    let dirs = |data: &str, config: &str, appdata: &str| GameDirs {
        data_path: p(data),
        config_path: p(config),
        appdata_path: p(appdata),
        mods_path: p("/d/Mods"),
        overwrite_path: p("/d/Overwrite"),
        data_dir: p("/d"),
    };
    match launcher.mount_all(&dirs("/g/Data", "", "/a:b")) {
        Err(ToryggError::Other(message)) => assert_eq!(message, "could not get folder name"),
        other => panic!("{:?}", other),
    }
    match launcher.mount_all(&dirs("/g/Data", "/c", "/a:b")) {
        Err(ToryggError::Other(message)) => assert_eq!(message, "failed to join lower paths"),
        other => panic!("{:?}", other),
    }
    match launcher.mount_all(&dirs("", "/c:d", "/a")) {
        Err(ToryggError::Other(message)) => assert_eq!(message, "could not get folder name"),
        other => panic!("{:?}", other),
    }
}

#[test]
fn mount_then_unmount_restores_the_target() {
    let prof = profile(&[]);
    let mut launcher = AppLauncher::new(&prof);
    let target = p("/games/Skyrim/Data");
    let mut lower = vec![p("/mods/a")];
    let plan = launcher.mount_path(&target, &mut lower, &p("/u"), &p("/w")).unwrap();
    launcher.confirm_mount(&plan.target, OK).unwrap();
    let done = launcher.unmount_all(&vec![OK]);
    assert!(done.result.is_ok());
    assert_eq!(done.restored, vec![target.clone()]);
    // The rename back starts where the rename aside ended.
    assert_eq!(backup_path(&done.restored[0]).unwrap(), plan.backup);
    assert!(launcher.mounted_paths().is_empty());
}

#[test]
fn partial_unmount_keeps_the_failed_path_for_a_retry() {
    let prof = profile(&[]);
    let mut launcher = AppLauncher::new(&prof);
    launcher.confirm_mount(&p("/one"), OK).unwrap();
    launcher.confirm_mount(&p("/two"), OK).unwrap();
    let first = launcher.unmount_all(&vec![OK, FAILED]);
    match &first.result {
        Err(ToryggError::Other(message)) => {
            assert_eq!(message, "Failed to unmount directories: /two");
            assert!(!message.contains("/one"));
        }
        other => panic!("{:?}", other),
    }
    assert_eq!(first.restored, vec![p("/one")]);
    assert_eq!(launcher.mounted_paths(), &vec![p("/two")]);
    let second = launcher.unmount_all(&vec![OK]);
    assert!(second.result.is_ok());
    assert_eq!(second.restored, vec![p("/two")]);
    assert!(launcher.mounted_paths().is_empty());
}

#[test]
fn unmount_keeps_paths_whose_tool_could_not_run() {
    let prof = profile(&[]);
    let mut launcher = AppLauncher::new(&prof);
    for path in ["/a", "/b", "/c", "/d"] {
        launcher.confirm_mount(&p(path), OK).unwrap();
    }
    let done =
        launcher.unmount_all(&vec![ToolOutcome::SpawnFailed, OK, ToolOutcome::WaitFailed]);
    match &done.result {
        Err(ToryggError::Other(message)) => {
            assert_eq!(message, "Failed to unmount directories: /a /c /d")
        }
        other => panic!("{:?}", other),
    }
    assert_eq!(done.restored, vec![p("/b")]);
    // "/d" had no outcome: it was not tried and stays.
    assert_eq!(launcher.mounted_paths(), &vec![p("/a"), p("/c"), p("/d")]);
}

#[test]
fn unmount_with_nothing_mounted_succeeds() {
    let prof = profile(&[]);
    let mut launcher = AppLauncher::new(&prof);
    let done = launcher.unmount_all(&Vec::new());
    assert!(done.result.is_ok());
    assert!(done.restored.is_empty());
}

#[test]
fn mount_and_unmount_commands() {
    let prof = profile(&[]);
    let launcher = AppLauncher::new(&prof);
    let mut lower = Vec::new();
    let plan = launcher.mount_path(&p("/g/Data"), &mut lower, &p("/u"), &p("/w")).unwrap();
    assert_eq!(
        plan.command(),
        vec!["fuse-overlayfs", "-o", "lowerdir=/g/Data~,upperdir=/u,workdir=/w", "/g/Data"]
    );
    assert_eq!(torygg::applauncher::unmount_command(&p("/g/Data")), vec!["umount", "/g/Data"]);
}
