//! The mount session: a union mount over a target directory, with the
//! directory's own contents moved aside for as long as the mount stands.
//!
//! Nothing here touches the disk or starts a tool. A session decides what is to
//! be done and is told how the tools fared; it keeps the list of the paths that
//! are mounted, which is what has to be unmounted before the session ends.

use vstd::prelude::*;
use vstd::string::StrSliceExecFns;
use vstd::string::StringExecFns;
use crate::error::ToryggError;
use crate::profile::Profile;
use crate::tree::{path_clone, RelPath};

verus! {

/// How a mount or unmount tool fared.
#[derive(Clone, Copy, Debug, PartialEq, Eq, Structural)]
pub enum ToolOutcome {
    /// The tool could not be started.
    SpawnFailed,
    /// The tool was started and could not be waited for.
    WaitFailed,
    /// The tool ran to its end.
    Exited { success: bool },
}

/// The sibling that holds the contents of `p` while `p` is mounted: the same
/// parent, the name with `~` behind it.
pub open spec fn backup_of(p: RelPath) -> RelPath {
    p.drop_last().push(p.last() + seq!['~'])
}

/// The first `k` components of `p` written out, each behind a `/`.
pub open spec fn render_upto(p: RelPath, k: int) -> Seq<char>
    decreases k,
{
    if k <= 0 || k > p.len() {
        Seq::empty()
    } else {
        render_upto(p, k - 1) + seq!['/'] + p[k - 1]
    }
}

/// The path `p` written out.
pub open spec fn rendered(p: RelPath) -> Seq<char> {
    render_upto(p, p.len() as int)
}

/// The first `k` paths written out with `:` between them.
pub open spec fn joined_upto(paths: Seq<RelPath>, k: int) -> Seq<char>
    decreases k,
{
    if k <= 0 || k > paths.len() {
        Seq::empty()
    } else if k == 1 {
        rendered(paths[0])
    } else {
        joined_upto(paths, k - 1) + seq![':'] + rendered(paths[k - 1])
    }
}

/// None of the paths holds a `:`, which separates them in a list.
pub open spec fn colon_free(paths: Seq<RelPath>) -> bool {
    forall|i: int| 0 <= i < paths.len() ==> !(#[trigger] rendered(paths[i])).contains(':')
}

/// The option string of the mount tool.
pub open spec fn options_of(lower: Seq<RelPath>, upper: RelPath, work: RelPath) -> Seq<char> {
    "lowerdir="@ + joined_upto(lower, lower.len() as int) + ",upperdir="@ + rendered(upper)
        + ",workdir="@ + rendered(work)
}

/// What is reported of a mount that cannot be set up: a target without a
/// last component has no name to put the backup under; else a path holds a `:`.
pub open spec fn plan_error(path: RelPath) -> Seq<char> {
    if path.len() == 0 {
        "could not get folder name"@
    } else {
        "failed to join lower paths"@
    }
}

/// What one mount consists of.
pub struct PlanView {
    pub target: RelPath,
    pub backup: RelPath,
    pub options: Seq<char>,
}

/// The mount of `lower` over `path`, if it can be set up. The backup sibling
/// of `path` goes last into the list of lower directories: it is the layer
/// with the lowest priority, and the first of the list has the highest.
pub open spec fn plan_for(path: RelPath, lower: Seq<RelPath>, upper: RelPath, work: RelPath) -> Option<
    PlanView,
> {
    if path.len() == 0 {
        None
    } else {
        let all = lower.push(backup_of(path));
        if colon_free(all) {
            Some(
                PlanView {
                    target: path,
                    backup: backup_of(path),
                    options: options_of(all, upper, work),
                },
            )
        } else {
            None
        }
    }
}

/// One mount, to be carried out in three steps: rename `target` to `backup`;
/// create an empty directory at `target`; run the mount tool with `-o`,
/// `options` and `target`. Between the first step and the success of the third
/// the contents of `target` are at `backup` only: a crash in that window leaves
/// them there.
#[derive(Debug)]
pub struct MountPlan {
    pub target: Vec<String>,
    pub backup: Vec<String>,
    pub options: String,
}

/// The words of the mount command for a plan with these options and target.
pub open spec fn mount_words(options: Seq<char>, target: RelPath) -> Seq<Seq<char>> {
    seq!["fuse-overlayfs"@, "-o"@, options, rendered(target)]
}

/// The words of the command that unmounts `target`.
pub open spec fn unmount_words(target: RelPath) -> Seq<Seq<char>> {
    seq!["umount"@, rendered(target)]
}

impl MountPlan {
    /// The mount command of the plan: the program and its arguments.
    pub fn command(&self) -> (r: Vec<String>)
        ensures
            r.deep_view() == mount_words(self.options@, self.target.deep_view()),
    {
        let mut words: Vec<String> = Vec::new();
        words.push(String::from_str("fuse-overlayfs"));
        words.push(String::from_str("-o"));
        words.push(self.options.clone());
        words.push(render(&self.target));
        assert(words.deep_view() =~= mount_words(self.options@, self.target.deep_view()));
        words
    }
}

/// The command that unmounts `target`: the program and its argument.
pub fn unmount_command(target: &Vec<String>) -> (r: Vec<String>)
    ensures
        r.deep_view() == unmount_words(target.deep_view()),
{
    let mut words: Vec<String> = Vec::new();
    words.push(String::from_str("umount"));
    words.push(render(target));
    assert(words.deep_view() =~= unmount_words(target.deep_view()));
    words
}

impl DeepView for MountPlan {
    type V = PlanView;

    open spec fn deep_view(&self) -> PlanView {
        PlanView {
            target: self.target.deep_view(),
            backup: self.backup.deep_view(),
            options: self.options@,
        }
    }
}

/// The backup sibling of `path`; none for a path without a last component.
pub fn backup_path(path: &Vec<String>) -> (r: Option<Vec<String>>)
    ensures
        path.len() == 0 ==> r is None,
        path.len() > 0 ==> r is Some && r->0.deep_view() == backup_of(path.deep_view()),
{
    if path.len() == 0 {
        return None;
    }
    let mut out = path_clone(path);
    assert(out.deep_view().len() == out@.len());
    assert(path.deep_view().len() == path@.len());
    assert(out@[out@.len() - 1]@ == out.deep_view()[out@.len() - 1]);
    let last = out.pop().unwrap();
    let ghost parent = out.deep_view();
    assert(parent =~= path.deep_view().drop_last());
    assert(last@ == path.deep_view().last());
    let mut name = last;
    name.append("~");
    proof {
        reveal_strlit("~");
        assert("~"@ =~= seq!['~']);
    }
    out.push(name);
    assert(out.deep_view() =~= parent.push(name@));
    Some(out)
}

/// Writes a path out: each component behind a `/`.
pub fn render(path: &Vec<String>) -> (r: String)
    ensures
        r@ == rendered(path.deep_view()),
{
    let mut out = String::new();
    let mut k: usize = 0;
    while k < path.len()
        invariant
            0 <= k <= path.len(),
            out@ == render_upto(path.deep_view(), k as int),
        decreases path.len() - k,
    {
        proof {
            reveal_strlit("/");
            assert("/"@ =~= seq!['/']);
        }
        out.append("/");
        out.append(path[k].as_str());
        assert(path.deep_view()[k as int] == path@[k as int]@);
        k += 1;
    }
    out
}

/// Whether `s` holds a `:`.
pub fn has_colon(s: &str) -> (r: bool)
    ensures
        r == s@.contains(':'),
{
    let n = s.unicode_len();
    let mut i: usize = 0;
    while i < n
        invariant
            n == s@.len(),
            0 <= i <= n,
            forall|k: int| 0 <= k < i ==> s@[k] != ':',
        decreases n - i,
    {
        if s.get_char(i) == ':' {
            return true;
        }
        i += 1;
    }
    false
}

/// Writes the paths out as one list, with `:` between them. A path that holds
/// a `:` cannot stand in such a list.
pub fn join_paths(paths: &Vec<Vec<String>>) -> (r: Option<String>)
    ensures
        r is Some == colon_free(paths.deep_view()),
        r is Some ==> r->0@ == joined_upto(paths.deep_view(), paths.len() as int),
{
    let mut out = String::new();
    let mut k: usize = 0;
    while k < paths.len()
        invariant
            0 <= k <= paths.len(),
            out@ == joined_upto(paths.deep_view(), k as int),
            forall|i: int|
                0 <= i < k ==> !(#[trigger] rendered(paths.deep_view()[i])).contains(':'),
        decreases paths.len() - k,
    {
        let one = render(&paths[k]);
        assert(paths.deep_view()[k as int] == paths@[k as int].deep_view());
        if has_colon(one.as_str()) {
            return None;
        }
        if k > 0 {
            proof {
                reveal_strlit(":");
                assert(":"@ =~= seq![':']);
            }
            out.append(":");
        }
        out.append(one.as_str());
        assert(out@ =~= joined_upto(paths.deep_view(), k + 1));
        k += 1;
    }
    Some(out)
}

/// The first `k` mounted paths that stay mounted after a round of unmounting:
/// those whose tool did not exit with success. A path without an outcome was
/// not tried and stays.
pub open spec fn stay(active: Seq<RelPath>, outcomes: Seq<ToolOutcome>, k: int) -> Seq<RelPath>
    decreases k,
{
    if k <= 0 || k > active.len() {
        Seq::empty()
    } else if succeeded(outcomes, k - 1) {
        stay(active, outcomes, k - 1)
    } else {
        stay(active, outcomes, k - 1).push(active[k - 1])
    }
}

/// The first `k` mounted paths that were unmounted and have a backup sibling
/// to bring back.
pub open spec fn gone(active: Seq<RelPath>, outcomes: Seq<ToolOutcome>, k: int) -> Seq<RelPath>
    decreases k,
{
    if k <= 0 || k > active.len() {
        Seq::empty()
    } else if succeeded(outcomes, k - 1) && active[k - 1].len() > 0 {
        gone(active, outcomes, k - 1).push(active[k - 1])
    } else {
        gone(active, outcomes, k - 1)
    }
}

/// The tool exited with success for the path at position `i`.
pub open spec fn succeeded(outcomes: Seq<ToolOutcome>, i: int) -> bool {
    0 <= i < outcomes.len() && outcomes[i] == (ToolOutcome::Exited { success: true })
}

/// The first `k` paths written out, each behind a blank.
pub open spec fn listed_upto(paths: Seq<RelPath>, k: int) -> Seq<char>
    decreases k,
{
    if k <= 0 || k > paths.len() {
        Seq::empty()
    } else {
        listed_upto(paths, k - 1) + seq![' '] + rendered(paths[k - 1])
    }
}

/// What is reported when paths stay mounted: each of them, written out.
pub open spec fn unmount_failure(paths: Seq<RelPath>) -> Seq<char> {
    "Failed to unmount directories:"@ + listed_upto(paths, paths.len() as int)
}

/// Writes the report of the paths that stay mounted.
pub fn failure_message(paths: &Vec<Vec<String>>) -> (r: String)
    ensures
        r@ == unmount_failure(paths.deep_view()),
{
    let mut out = String::from_str("Failed to unmount directories:");
    let mut k: usize = 0;
    assert(out@ =~= "Failed to unmount directories:"@ + listed_upto(paths.deep_view(), 0));
    while k < paths.len()
        invariant
            0 <= k <= paths.len(),
            out@ == "Failed to unmount directories:"@ + listed_upto(paths.deep_view(), k as int),
        decreases paths.len() - k,
    {
        proof {
            reveal_strlit(" ");
            assert(" "@ =~= seq![' ']);
        }
        out.append(" ");
        out.append(render(&paths[k]).as_str());
        assert(paths.deep_view()[k as int] == paths@[k as int].deep_view());
        assert(out@ =~= "Failed to unmount directories:"@ + listed_upto(paths.deep_view(), k + 1));
        k += 1;
    }
    assert(paths.deep_view().len() == paths.len());
    out
}

/// What a round of unmounting leaves to do and to report.
#[derive(Debug)]
pub struct Unmounted {
    /// The paths that were unmounted, then those that were moved aside for a
    /// mount that did not come about: for each, the backup sibling is to be
    /// renamed back onto it.
    pub restored: Vec<Vec<String>>,
    /// Success if nothing is mounted any more.
    pub result: Result<(), ToryggError>,
}

/// The directories that a launch works on.
pub struct GameDirs {
    /// The game's data directory.
    pub data_path: Vec<String>,
    /// The game's configuration directory.
    pub config_path: Vec<String>,
    /// The game's application data directory.
    pub appdata_path: Vec<String>,
    /// The directory that holds one directory for each installed mod.
    pub mods_path: Vec<String>,
    /// The writable layer of the data directory.
    pub overwrite_path: Vec<String>,
    /// The directory for the tool's scratch space and the writable layer of
    /// the configuration.
    pub data_dir: Vec<String>,
}

/// `dir` with one more component.
pub open spec fn child(dir: RelPath, name: Seq<char>) -> RelPath {
    dir.push(name)
}

/// The lower directories of the data mount: the directory of each enabled mod,
/// the last of the profile first. In a profile a later mod overrides an
/// earlier one, and of the lower directories the first overrides the rest.
pub open spec fn mod_dirs(mods_path: RelPath, mods: Option<Seq<Seq<char>>>) -> Seq<RelPath> {
    match mods {
        Some(m) => Seq::new(m.len(), |i: int| child(mods_path, m[m.len() - 1 - i])),
        None => Seq::empty(),
    }
}

fn child_dir(dir: &Vec<String>, name: &str) -> (r: Vec<String>)
    ensures
        r.deep_view() == child(dir.deep_view(), name@),
{
    let mut out = path_clone(dir);
    let ghost base = out.deep_view();
    out.push(name.to_owned());
    assert(out.deep_view() =~= base.push(name@));
    out
}

/// A mount session for one profile.
pub struct AppLauncher<'a> {
    profile: &'a Profile,
    mounted_paths: Vec<Vec<String>>,
    displaced_paths: Vec<Vec<String>>,
}

impl<'a> AppLauncher<'a> {
    /// The paths that are mounted, oldest first.
    pub closed spec fn active(&self) -> Seq<RelPath> {
        self.mounted_paths.deep_view()
    }

    /// The targets whose contents were moved aside for a mount that did not
    /// come about, oldest first: each is an empty mount point, or nothing, and
    /// what it held is in its backup sibling.
    pub closed spec fn displaced(&self) -> Seq<RelPath> {
        self.displaced_paths.deep_view()
    }

    /// The profile that the session launches.
    pub closed spec fn profile(&self) -> Profile {
        *self.profile
    }

    /// A session with nothing mounted and nothing moved aside.
    pub fn new(profile: &'a Profile) -> (r: Self)
        ensures
            r.active() == Seq::<RelPath>::empty(),
            r.displaced() == Seq::<RelPath>::empty(),
            r.profile() == *profile,
    {
        let r = AppLauncher { profile, mounted_paths: Vec::new(), displaced_paths: Vec::new() };
        assert(r.mounted_paths.deep_view() =~= Seq::<RelPath>::empty());
        assert(r.displaced_paths.deep_view() =~= Seq::<RelPath>::empty());
        r
    }

    /// The targets whose contents are in their backup sibling without a mount
    /// standing over them, oldest first.
    pub fn displaced_paths(&self) -> (r: &Vec<Vec<String>>)
        ensures
            r.deep_view() == self.displaced(),
    {
        &self.displaced_paths
    }

    /// The paths that are mounted, oldest first.
    pub fn mounted_paths(&self) -> (r: &Vec<Vec<String>>)
        ensures
            r.deep_view() == self.active(),
    {
        &self.mounted_paths
    }

    /// Sets up the mount of `lower_paths` over `path`, with `upper_path` as the
    /// writable layer and `work_path` as scratch space. The backup sibling of
    /// `path` is added to `lower_paths` as its last entry. Of the lower
    /// directories the first has the highest priority: the mods go in
    /// most-overriding first.
    pub fn mount_path(
        &self,
        path: &Vec<String>,
        lower_paths: &mut Vec<Vec<String>>,
        upper_path: &Vec<String>,
        work_path: &Vec<String>,
    ) -> (r: Result<MountPlan, ToryggError>)
        ensures
            path.len() == 0 ==> final(lower_paths).deep_view() == old(lower_paths).deep_view(),
            path.len() > 0 ==> final(lower_paths).deep_view() == old(lower_paths).deep_view().push(
                backup_of(path.deep_view()),
            ),
            match plan_for(
                path.deep_view(),
                old(lower_paths).deep_view(),
                upper_path.deep_view(),
                work_path.deep_view(),
            ) {
                Some(plan) => r is Ok && r->Ok_0.deep_view() == plan,
                None => r is Err && r->Err_0 is Other && r->Err_0->Other_0@ == plan_error(
                    path.deep_view(),
                ),
            },
    {
        let backup = match backup_path(path) {
            Some(b) => b,
            None => {
                return Err(ToryggError::Other("could not get folder name".to_owned()));
            },
        };
        let ghost before = lower_paths.deep_view();
        lower_paths.push(path_clone(&backup));
        assert(lower_paths.deep_view() =~= before.push(backup_of(path.deep_view())));
        let lower = match join_paths(lower_paths) {
            Some(l) => l,
            None => {
                return Err(ToryggError::Other("failed to join lower paths".to_owned()));
            },
        };
        let mut options = String::from_str("lowerdir=");
        options.append(lower.as_str());
        options.append(",upperdir=");
        options.append(render(upper_path).as_str());
        options.append(",workdir=");
        options.append(render(work_path).as_str());
        Ok(MountPlan { target: path_clone(path), backup, options })
    }

    /// Sets up the three mounts of a launch: the data directory below the
    /// enabled mods, the configuration directory and the application data
    /// directory. The mods are layered with the last of the profile on top, so
    /// that the mount shows what copying them one over the other in the order
    /// of the profile would give.
    pub fn mount_all(&self, dirs: &GameDirs) -> (r: Result<Vec<MountPlan>, ToryggError>)
        ensures
            ({
                let work = child(dirs.data_dir.deep_view(), ".OverlayFS"@);
                let upper = child(dirs.data_dir.deep_view(), "Configs"@);
                let data = plan_for(
                    dirs.data_path.deep_view(),
                    mod_dirs(dirs.mods_path.deep_view(), self.profile()@.mods),
                    dirs.overwrite_path.deep_view(),
                    work,
                );
                let config = plan_for(dirs.config_path.deep_view(), Seq::empty(), upper, work);
                let appdata = plan_for(dirs.appdata_path.deep_view(), Seq::empty(), upper, work);
                if data is Some && config is Some && appdata is Some {
                    r is Ok && r->Ok_0.deep_view() == seq![data->0, config->0, appdata->0]
                } else {
                    r is Err && r->Err_0 is Other && r->Err_0->Other_0@ == plan_error(
                        if data is None {
                            dirs.data_path.deep_view()
                        } else if config is None {
                            dirs.config_path.deep_view()
                        } else {
                            dirs.appdata_path.deep_view()
                        },
                    )
                }
            }),
    {
        let work_path = child_dir(&dirs.data_dir, ".OverlayFS");
        let mut mod_paths: Vec<Vec<String>> = Vec::new();
        match self.profile.enabled_mods() {
            Some(mods) => {
                let mut i: usize = 0;
                while i < mods.len()
                    invariant
                        0 <= i <= mods.len(),
                        mod_paths.len() == i,
                        forall|k: int|
                            0 <= k < i ==> (#[trigger] mod_paths@[k]).deep_view() == child(
                                dirs.mods_path.deep_view(),
                                mods@[mods.len() - 1 - k]@,
                            ),
                    decreases mods.len() - i,
                {
                    mod_paths.push(child_dir(&dirs.mods_path, mods[mods.len() - 1 - i].as_str()));
                    i += 1;
                }
                assert(mod_paths.deep_view() =~= mod_dirs(
                    dirs.mods_path.deep_view(),
                    self.profile()@.mods,
                ));
            },
            None => {
                assert(mod_paths.deep_view() =~= mod_dirs(
                    dirs.mods_path.deep_view(),
                    self.profile()@.mods,
                ));
            },
        }
        let data = self.mount_path(&dirs.data_path, &mut mod_paths, &dirs.overwrite_path, &work_path)?;
        let upper_path = child_dir(&dirs.data_dir, "Configs");
        let mut none: Vec<Vec<String>> = Vec::new();
        assert(none.deep_view() =~= Seq::<RelPath>::empty());
        let config = self.mount_path(&dirs.config_path, &mut none, &upper_path, &work_path)?;
        let mut none: Vec<Vec<String>> = Vec::new();
        assert(none.deep_view() =~= Seq::<RelPath>::empty());
        let appdata = self.mount_path(&dirs.appdata_path, &mut none, &upper_path, &work_path)?;
        let mut plans: Vec<MountPlan> = Vec::new();
        plans.push(data);
        plans.push(config);
        plans.push(appdata);
        assert(plans.deep_view() =~= seq![data.deep_view(), config.deep_view(), appdata.deep_view()]);
        Ok(plans)
    }

    /// Takes note of how the mount tool fared for `path`, whose contents were
    /// moved to the backup sibling before the tool was tried. Only a tool that
    /// exited with success has mounted it, and only then is the path added to
    /// the list of those to unmount. In every other case the path is added to
    /// the list of those moved aside, so that the next round of unmounting
    /// brings its contents back.
    pub fn confirm_mount(&mut self, path: &Vec<String>, outcome: ToolOutcome) -> (r: Result<
        (),
        ToryggError,
    >)
        ensures
            final(self).profile() == old(self).profile(),
            r == match outcome {
                ToolOutcome::SpawnFailed => Err::<(), ToryggError>(ToryggError::FailedToSpawnChild),
                ToolOutcome::WaitFailed => Err::<(), ToryggError>(ToryggError::ChildFailed),
                ToolOutcome::Exited { success } => if success {
                    Ok::<(), ToryggError>(())
                } else {
                    Err::<(), ToryggError>(ToryggError::ChildFailed)
                },
            },
            r is Ok ==> final(self).active() == old(self).active().push(path.deep_view())
                && final(self).displaced() == old(self).displaced(),
            r is Err ==> final(self).active() == old(self).active() && final(self).displaced()
                == old(self).displaced().push(path.deep_view()),
    {
        let mounted = match outcome {
            ToolOutcome::Exited { success } => success,
            _ => false,
        };
        if mounted {
            let ghost before = self.mounted_paths.deep_view();
            self.mounted_paths.push(path_clone(path));
            assert(self.mounted_paths.deep_view() =~= before.push(path.deep_view()));
            return Ok(());
        }
        let ghost before = self.displaced_paths.deep_view();
        self.displaced_paths.push(path_clone(path));
        assert(self.displaced_paths.deep_view() =~= before.push(path.deep_view()));
        match outcome {
            ToolOutcome::SpawnFailed => Err(ToryggError::FailedToSpawnChild),
            _ => Err(ToryggError::ChildFailed),
        }
    }

    /// Takes note of a round of unmounting: `outcomes` holds, for each mounted
    /// path in order, how the unmount tool fared. A path whose tool exited with
    /// success leaves the list and is to have its backup sibling renamed back
    /// onto it; every other path stays in the list, to be tried again. The
    /// targets that were moved aside for a mount that did not come about are
    /// handed back with them, to have their backup sibling renamed back too,
    /// and leave their list. The result is a success only if nothing is
    /// mounted afterwards; the failure names each path that still is.
    pub fn unmount_all(&mut self, outcomes: &Vec<ToolOutcome>) -> (r: Unmounted)
        ensures
            final(self).profile() == old(self).profile(),
            final(self).active() == stay(old(self).active(), outcomes@, old(self).active().len() as int),
            final(self).displaced() == Seq::<RelPath>::empty(),
            r.restored.deep_view() == gone(
                old(self).active(),
                outcomes@,
                old(self).active().len() as int,
            ) + old(self).displaced(),
            r.result is Ok <==> final(self).active().len() == 0,
            r.result is Err ==> r.result->Err_0 is Other && r.result->Err_0->Other_0@
                == unmount_failure(final(self).active()),
    {
        let mut kept: Vec<Vec<String>> = Vec::new();
        let mut restored: Vec<Vec<String>> = Vec::new();
        let ghost active = self.mounted_paths.deep_view();
        assert(kept.deep_view() =~= stay(active, outcomes@, 0));
        assert(restored.deep_view() =~= gone(active, outcomes@, 0));
        let mut i: usize = 0;
        while i < self.mounted_paths.len()
            invariant
                0 <= i <= self.mounted_paths.len(),
                active == self.mounted_paths.deep_view(),
                kept.deep_view() == stay(active, outcomes@, i as int),
                restored.deep_view() == gone(active, outcomes@, i as int),
            decreases self.mounted_paths.len() - i,
        {
            let path = &self.mounted_paths[i];
            assert(active[i as int] == path.deep_view());
            let ghost kept0 = kept.deep_view();
            let ghost restored0 = restored.deep_view();
            let done = i < outcomes.len() && match outcomes[i] {
                ToolOutcome::Exited { success } => success,
                _ => false,
            };
            if done {
                if path.len() > 0 {
                    restored.push(path_clone(path));
                    assert(restored.deep_view() =~= restored0.push(path.deep_view()));
                }
            } else {
                kept.push(path_clone(path));
                assert(kept.deep_view() =~= kept0.push(path.deep_view()));
            }
            i += 1;
        }
        self.mounted_paths = kept;
        assert(self.mounted_paths.deep_view().len() == self.mounted_paths.len());
        let mut j: usize = 0;
        let ghost unmounted = restored.deep_view();
        let ghost aside = self.displaced_paths.deep_view();
        assert(restored.deep_view() =~= unmounted + aside.take(0));
        while j < self.displaced_paths.len()
            invariant
                0 <= j <= self.displaced_paths.len(),
                aside == self.displaced_paths.deep_view(),
                restored.deep_view() == unmounted + aside.take(j as int),
            decreases self.displaced_paths.len() - j,
        {
            let ghost before = restored.deep_view();
            restored.push(path_clone(&self.displaced_paths[j]));
            assert(aside[j as int] == self.displaced_paths@[j as int].deep_view());
            assert(restored.deep_view() =~= before.push(aside[j as int]));
            assert(aside.take(j + 1) =~= aside.take(j as int).push(aside[j as int]));
            j += 1;
        }
        assert(aside.take(aside.len() as int) =~= aside);
        self.displaced_paths = Vec::new();
        assert(self.displaced_paths.deep_view() =~= Seq::<RelPath>::empty());
        let result = if self.mounted_paths.len() == 0 {
            Ok(())
        } else {
            Err(ToryggError::Other(failure_message(&self.mounted_paths)))
        };
        Unmounted { restored, result }
    }
}

/// Partial unmount, retried: whatever a first round left mounted, a second
/// round in which every tool exits with success leaves nothing mounted.
pub proof fn lemma_retry_clears(active: Seq<RelPath>, first: Seq<ToolOutcome>, second: Seq<ToolOutcome>)
    requires
        forall|i: int|
            0 <= i < stay(active, first, active.len() as int).len() ==> #[trigger] succeeded(second, i),
    ensures
        stay(stay(active, first, active.len() as int), second, stay(active, first, active.len() as int).len() as int)
            == Seq::<RelPath>::empty(),
{
    let left = stay(active, first, active.len() as int);
    lemma_all_succeed(left, second, left.len() as int);
}

/// A round in which the tool exits with success for each of the first `k`
/// paths leaves none of them mounted.
pub proof fn lemma_all_succeed(active: Seq<RelPath>, outcomes: Seq<ToolOutcome>, k: int)
    requires
        0 <= k <= active.len(),
        forall|i: int| 0 <= i < k ==> #[trigger] succeeded(outcomes, i),
    ensures
        stay(active, outcomes, k) == Seq::<RelPath>::empty(),
    decreases k,
{
    if k > 0 {
        assert(succeeded(outcomes, k - 1));
        lemma_all_succeed(active, outcomes, k - 1);
    }
}

/// A round of unmounting keeps exactly the paths whose tool did not exit with
/// success: a path is in the list afterwards if and only if it stood in the
/// list at a position whose tool failed.
pub proof fn lemma_stay_names_failures(
    active: Seq<RelPath>,
    outcomes: Seq<ToolOutcome>,
    k: int,
    p: RelPath,
)
    requires
        0 <= k <= active.len(),
    ensures
        stay(active, outcomes, k).contains(p) <==> exists|i: int|
            0 <= i < k && #[trigger] active[i] == p && !succeeded(outcomes, i),
    decreases k,
{
    if k > 0 {
        lemma_stay_names_failures(active, outcomes, k - 1, p);
        let prev = stay(active, outcomes, k - 1);
        let cur = stay(active, outcomes, k);
        if succeeded(outcomes, k - 1) {
            if exists|i: int| 0 <= i < k && #[trigger] active[i] == p && !succeeded(outcomes, i) {
                let i = choose|i: int|
                    0 <= i < k && #[trigger] active[i] == p && !succeeded(outcomes, i);
                assert(i < k - 1);
            }
        } else {
            assert(cur[prev.len() as int] == active[k - 1]);
            if prev.contains(p) {
                let j = choose|j: int| 0 <= j < prev.len() && prev[j] == p;
                assert(cur[j] == p);
            }
            if cur.contains(p) {
                let j = choose|j: int| 0 <= j < cur.len() && cur[j] == p;
                if j < prev.len() {
                    assert(prev[j] == p);
                } else {
                    assert(active[k - 1] == p);
                }
            }
        }
    }
}

/// What stands at each path, for the round trip of a mount.
pub type Dirs = Map<Seq<Seq<char>>, int>;

/// The directories after `from` was renamed to `to`.
pub open spec fn renamed(dirs: Dirs, from: RelPath, to: RelPath) -> Dirs {
    dirs.remove(from).insert(to, dirs[from])
}

/// Round trip of a mount: the contents of the target go to the backup sibling,
/// an empty directory takes their place for the mount, and after the unmount,
/// or after a mount that did not come about, the backup sibling is renamed
/// back over it. Where no sibling of that name
/// was in the way, every path then holds what it held before, and the backup
/// sibling is gone.
pub proof fn lemma_mount_round_trip(dirs: Dirs, target: RelPath, mountpoint: int)
    requires
        target.len() > 0,
        dirs.contains_key(target),
        !dirs.contains_key(backup_of(target)),
    ensures
        renamed(
            renamed(dirs, target, backup_of(target)).insert(target, mountpoint),
            backup_of(target),
            target,
        ) == dirs,
{
    let backup = backup_of(target);
    assert(backup != target) by {
        assert(backup.last().len() == target.last().len() + 1);
    }
    assert(renamed(renamed(dirs, target, backup).insert(target, mountpoint), backup, target)
        =~= dirs);
}

} // verus!
