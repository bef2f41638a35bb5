//! The store of installed mods: one directory for each mod, named after it.

use vstd::prelude::*;
use vstd::string::StringExecFns;
use crate::deploy::{FsAction, Step};
use crate::error::{IoFault, ToryggError};
use crate::profile::{contains_name, toggled, Profile, ProfileView};
use crate::tree::{
    below, holds, lemma_entry_found, node_at, parent_is_dir, path_below, path_clone, put_spec,
    Listing, Node, RelPath, Tree,
};
use crate::util::{alike, first_match_from, is_child_match, names_match};

verus! {

/// The names of the directories among the first `k` entries of `mods` that
/// stand directly in the mods directory, in listing order.
pub open spec fn installed(mods: Listing, k: int) -> Seq<Seq<char>>
    decreases k,
{
    if k <= 0 || k > mods.len() {
        Seq::empty()
    } else if mods[k - 1].0.len() == 1 && mods[k - 1].1 == Node::Dir {
        installed(mods, k - 1).push(mods[k - 1].0[0])
    } else {
        installed(mods, k - 1)
    }
}

/// A mod is installed if and only if the mods directory holds a directory of
/// its name.
pub proof fn lemma_installed(mods: Listing, k: int, name: Seq<char>)
    requires
        0 <= k <= mods.len(),
    ensures
        installed(mods, k).contains(name) <==> exists|i: int|
            0 <= i < k && (#[trigger] mods[i]).0 == seq![name] && mods[i].1 == Node::Dir,
    decreases k,
{
    if k > 0 {
        lemma_installed(mods, k - 1, name);
        let prev = installed(mods, k - 1);
        let cur = installed(mods, k);
        let e = mods[k - 1];
        if e.0.len() == 1 && e.1 == Node::Dir {
            assert(e.0 =~= seq![e.0[0]]);
            assert(cur[prev.len() as int] == e.0[0]);
            if prev.contains(name) {
                let j = choose|j: int| 0 <= j < prev.len() && prev[j] == name;
                assert(cur[j] == name);
            }
            if cur.contains(name) {
                let j = choose|j: int| 0 <= j < cur.len() && cur[j] == name;
                if j < prev.len() {
                    assert(prev[j] == name);
                } else {
                    assert(mods[k - 1].0 == seq![name]);
                }
            }
            if e.0 == seq![name] {
                assert(seq![name][0] == name);
            }
        } else {
            if e.0 == seq![name] {
                assert(seq![name].len() == 1);
            }
        }
        if exists|i: int| 0 <= i < k && (#[trigger] mods[i]).0 == seq![name] && mods[i].1 == Node::Dir {
            let i = choose|i: int|
                0 <= i < k && (#[trigger] mods[i]).0 == seq![name] && mods[i].1 == Node::Dir;
            if i < k - 1 {
                assert(prev.contains(name));
            }
        }
    }
}

/// The installed mods: the name of every directory that stands directly in
/// the mods directory, which `mods` lists.
pub fn installed_mods(mods: &Tree) -> (r: Vec<String>)
    requires
        mods.wf(),
    ensures
        r.deep_view() == installed(mods@, mods@.len() as int),
{
    let mut out: Vec<String> = Vec::new();
    assert(out.deep_view() =~= installed(mods@, 0));
    let mut i: usize = 0;
    while i < mods.len()
        invariant
            mods.wf(),
            0 <= i <= mods@.len(),
            out.deep_view() == installed(mods@, i as int),
        decreases mods@.len() - i,
    {
        let path = mods.path(i);
        assert(path.deep_view().len() == path.len());
        if path.len() == 1 {
            if let Node::Dir = mods.node(i) {
                let ghost before = out.deep_view();
                out.push(path[0].clone());
                assert(path.deep_view()[0] == path@[0]@);
                assert(out.deep_view() =~= before.push(mods@[i as int].0[0]));
            }
        }
        i += 1;
    }
    out
}

/// Whether a mod of that name is installed.
pub fn mod_installed(mod_name: &String, mods: &Tree) -> (r: bool)
    requires
        mods.wf(),
    ensures
        r == installed(mods@, mods@.len() as int).contains(mod_name@),
        r == (node_at(mods@, seq![mod_name@]) == Some(Node::Dir)),
{
    let names = installed_mods(mods);
    proof {
        lemma_installed(mods@, mods@.len() as int, mod_name@);
        let p = seq![mod_name@];
        if node_at(mods@, p) == Some(Node::Dir) {
            let i = crate::tree::index_of(mods@, p);
            assert(mods@[i].0 == p && mods@[i].1 == Node::Dir);
        }
        if exists|i: int|
            0 <= i < mods@.len() && (#[trigger] mods@[i]).0 == p && mods@[i].1 == Node::Dir {
            let i = choose|i: int|
                0 <= i < mods@.len() && (#[trigger] mods@[i]).0 == p && mods@[i].1 == Node::Dir;
            mods.lemma_wf();
            lemma_entry_found(mods@, i);
        }
    }
    contains_name(&names, mod_name)
}

/// Makes a new, empty mod: a directory of its name in the mods directory,
/// to be created on disk. A mod of that name must not be installed, and no
/// file of that name may be in the way.
pub fn create_mod(mod_name: &String, mods: &mut Tree) -> (r: Result<(), ToryggError>)
    requires
        old(mods).wf(),
    ensures
        final(mods).wf(),
        match node_at(old(mods)@, seq![mod_name@]) {
            Some(Node::Dir) => r is Err && r->Err_0 == ToryggError::ModAlreadyExists && final(mods)@
                == old(mods)@,
            Some(Node::File(_)) => r is Err && r->Err_0 is NotADirectory
                && r->Err_0->NotADirectory_0@ == mod_name@ && final(mods)@ == old(mods)@,
            None => r is Ok && final(mods)@ == put_spec(old(mods)@, seq![mod_name@], Node::Dir),
        },
{
    if mod_installed(mod_name, mods) {
        return Err(ToryggError::ModAlreadyExists);
    }
    let mut path: Vec<String> = Vec::new();
    path.push(mod_name.clone());
    assert(path.deep_view() =~= seq![mod_name@]);
    match mods.lookup(&path) {
        Some(_) => Err(ToryggError::NotADirectory(mod_name.clone())),
        None => {
            mods.put(&path, Node::Dir);
            Ok(())
        },
    }
}

/// The entry `e` stands directly in the directory `dir`.
pub open spec fn direct_child(dir: RelPath, e: RelPath) -> bool {
    e.len() == dir.len() + 1 && below(dir, e)
}

/// The positions of the entries among the first `k` that stand directly in `dir`.
pub open spec fn children(t: Listing, dir: RelPath, k: int) -> Seq<int>
    decreases k,
{
    if k <= 0 || k > t.len() {
        Seq::empty()
    } else if direct_child(dir, t[k - 1].0) {
        children(t, dir, k - 1).push(k - 1)
    } else {
        children(t, dir, k - 1)
    }
}

/// The directory to go down into from `dir`: its only entry, if that is a
/// directory named like the archive or named `Data`, case ignored.
pub open spec fn descends(t: Listing, dir: RelPath, stem: Seq<char>) -> Option<RelPath> {
    let c = children(t, dir, t.len() as int);
    if c.len() == 1 && t[c[0]].1 == Node::Dir && (alike(t[c[0]].0.last(), stem)
        || alike(t[c[0]].0.last(), "Data"@)) {
        Some(t[c[0]].0)
    } else {
        None
    }
}

/// The root of the mod in an unpacked archive, reached from `dir` in at most
/// `fuel` steps down.
pub open spec fn mod_root_from(t: Listing, dir: RelPath, stem: Seq<char>, fuel: nat) -> RelPath
    decreases fuel,
{
    if fuel == 0 {
        dir
    } else {
        match descends(t, dir, stem) {
            Some(next) => mod_root_from(t, next, stem, (fuel - 1) as nat),
            None => dir,
        }
    }
}

/// The only entry that stands directly in `dir`, if there is exactly one.
pub fn only_child(t: &Tree, dir: &Vec<String>) -> (r: Option<usize>)
    requires
        t.wf(),
    ensures
        r is Some == (children(t@, dir.deep_view(), t@.len() as int).len() == 1),
        r is Some ==> r->0 == children(t@, dir.deep_view(), t@.len() as int)[0] && r->0 < t@.len()
            && direct_child(dir.deep_view(), t@[r->0 as int].0),
{
    let mut count: usize = 0;
    let mut first: usize = 0;
    let mut k: usize = 0;
    while k < t.len()
        invariant
            t.wf(),
            0 <= k <= t@.len(),
            count <= k,
            count == children(t@, dir.deep_view(), k as int).len(),
            count > 0 ==> first == children(t@, dir.deep_view(), k as int)[0] && first < k
                && direct_child(dir.deep_view(), t@[first as int].0),
        decreases t@.len() - k,
    {
        let e = t.path(k);
        assert(e.deep_view().len() == e.len());
        assert(dir.deep_view().len() == dir.len());
        if dir.len() < usize::MAX && e.len() == dir.len() + 1 && path_below(dir, e) {
            if count == 0 {
                first = k;
            }
            count += 1;
        }
        k += 1;
    }
    if count == 1 {
        Some(first)
    } else {
        None
    }
}

/// Finds the root of the mod in an unpacked archive: from the top, down
/// through every directory that is the only entry of its parent and is named
/// like the archive or named `Data`, case ignored.
pub fn find_mod_root(extracted: &Tree, archive_stem: &str) -> (r: Vec<String>)
    requires
        extracted.wf(),
    ensures
        r.deep_view() == mod_root_from(
            extracted@,
            Seq::empty(),
            archive_stem@,
            extracted@.len() as nat,
        ),
{
    let mut root: Vec<String> = Vec::new();
    assert(root.deep_view() =~= Seq::<Seq<char>>::empty());
    let mut fuel: usize = extracted.len();
    while fuel > 0
        invariant
            extracted.wf(),
            mod_root_from(extracted@, Seq::empty(), archive_stem@, extracted@.len() as nat)
                == mod_root_from(extracted@, root.deep_view(), archive_stem@, fuel as nat),
        decreases fuel,
    {
        let next = match only_child(extracted, &root) {
            Some(i) => {
                let e = extracted.path(i);
                assert(e.deep_view().len() == e.len());
                let is_dir = match extracted.node(i) {
                    Node::Dir => true,
                    _ => false,
                };
                if is_dir && e.len() > 0 {
                    let last = &e[e.len() - 1];
                    assert(e.deep_view().last() == last@);
                    if names_match(last.as_str(), archive_stem) || names_match(last.as_str(), "Data") {
                        Some(path_clone(e))
                    } else {
                        None
                    }
                } else {
                    None
                }
            },
            None => None,
        };
        match next {
            Some(n) => {
                root = n;
                fuel -= 1;
            },
            None => {
                return root;
            },
        }
    }
    root
}

/// The position of the scripted installer's directory: the first entry
/// directly in `mod_root` whose name is `fomod`, case ignored.
pub fn find_fomod(extracted: &Tree, mod_root: &Vec<String>) -> (r: Option<usize>)
    requires
        extracted.wf(),
    ensures
        match first_match_from(extracted@, mod_root.deep_view(), "fomod"@, 0) {
            Some(i) => r is Some && r->0 as int == i && 0 <= i < extracted@.len(),
            None => r is None,
        },
{
    let name = String::from_str("fomod");
    let mut i: usize = 0;
    while i < extracted.len()
        invariant
            extracted.wf(),
            0 <= i <= extracted@.len(),
            name@ == "fomod"@,
            first_match_from(extracted@, mod_root.deep_view(), "fomod"@, 0) == first_match_from(
                extracted@,
                mod_root.deep_view(),
                "fomod"@,
                i as int,
            ),
        decreases extracted@.len() - i,
    {
        if is_child_match(extracted.path(i), mod_root, &name) {
            return Some(i);
        }
        assert(first_match_from(extracted@, mod_root.deep_view(), "fomod"@, i as int)
            == first_match_from(extracted@, mod_root.deep_view(), "fomod"@, i + 1));
        i += 1;
    }
    None
}

/// Where the mods directory and the plan stand while a mod is copied in.
pub struct Copying {
    pub mods: Listing,
    pub plan: Seq<Step>,
}

/// Where the entry `e` of the archive goes in the mods directory: below the
/// mod's own directory, at the path that it has below `root`.
pub open spec fn placed(root: RelPath, name: Seq<char>, e: RelPath) -> RelPath {
    seq![name] + e.skip(root.len() as int)
}

/// What one entry of the archive does: an entry below `root` is created or
/// copied at its place, any other is passed over.
pub open spec fn install_entry(s: Copying, root: RelPath, name: Seq<char>, e: RelPath, node: Node) -> Result<
    Copying,
    ToryggError,
> {
    let to = placed(root, name, e);
    if !below(root, e) {
        Ok(s)
    } else {
        match node {
            Node::Dir => if holds(s.mods, to) {
                Err(ToryggError::IOError(IoFault::AlreadyExists))
            } else if !parent_is_dir(s.mods, to) {
                Err(ToryggError::IOError(IoFault::NotFound))
            } else {
                Ok(
                    Copying {
                        mods: put_spec(s.mods, to, Node::Dir),
                        plan: s.plan.push(Step::CreateDir(to)),
                    },
                )
            },
            Node::File(_) => if node_at(s.mods, to) == Some(Node::Dir) {
                Err(ToryggError::IOError(IoFault::IsADirectory))
            } else if !parent_is_dir(s.mods, to) {
                Err(ToryggError::IOError(IoFault::NotFound))
            } else {
                Ok(
                    Copying {
                        mods: put_spec(s.mods, to, node),
                        plan: s.plan.push(Step::CopyFile { layer: 0, source: e, dest: to }),
                    },
                )
            },
        }
    }
}

/// The entries of the archive from position `k` on, each in its turn.
pub open spec fn install_from(s: Copying, root: RelPath, name: Seq<char>, files: Listing, k: int) -> Result<
    Copying,
    ToryggError,
>
    decreases files.len() - k,
{
    if k < 0 || k >= files.len() {
        Ok(s)
    } else {
        match install_entry(s, root, name, files[k].0, files[k].1) {
            Ok(next) => install_from(next, root, name, files, k + 1),
            Err(e) => Err(e),
        }
    }
}

/// The mods directory with the mod's own directory in it, and the plan that
/// begins with creating it where it was missing.
pub open spec fn install_start(mods: Listing, name: Seq<char>) -> Option<Copying> {
    match node_at(mods, seq![name]) {
        Some(Node::Dir) => Some(Copying { mods, plan: Seq::empty() }),
        Some(Node::File(_)) => None,
        None => Some(
            Copying {
                mods: put_spec(mods, seq![name], Node::Dir),
                plan: seq![Step::CreateDir(seq![name])],
            },
        ),
    }
}

/// Copying a whole mod in: every entry of the unpacked archive below
/// `mod_root` goes to the same relative path in the mod's directory.
pub open spec fn install_all_spec(files: Listing, root: RelPath, name: Seq<char>, mods: Listing) -> Result<
    Copying,
    ToryggError,
> {
    match install_start(mods, name) {
        Some(s) => install_from(s, root, name, files, 0),
        None => Err(ToryggError::IOError(IoFault::NotADirectory)),
    }
}

/// Plans the installation of everything below `mod_root` as the mod `name`.
/// In the actions, a source is relative to the unpacked archive and a
/// destination to the mods directory. On an error `mods` is of no use any more.
pub fn install_all(extracted: &Tree, mod_root: &Vec<String>, name: &String, mods: &mut Tree) -> (r:
    Result<Vec<FsAction>, ToryggError>)
    requires
        extracted.wf(),
        old(mods).wf(),
    ensures
        final(mods).wf(),
        match install_all_spec(extracted@, mod_root.deep_view(), name@, old(mods)@) {
            Ok(s) => r is Ok && r->Ok_0.deep_view() == s.plan && final(mods)@ == s.mods,
            Err(e) => r is Err && r->Err_0 == e,
        },
{
    let ghost whole = install_all_spec(extracted@, mod_root.deep_view(), name@, old(mods)@);
    let mut plan: Vec<FsAction> = Vec::new();
    let mut home: Vec<String> = Vec::new();
    home.push(name.clone());
    assert(home.deep_view() =~= seq![name@]);
    assert(plan.deep_view() =~= Seq::<Step>::empty());
    match mods.lookup(&home) {
        Some(Node::Dir) => {},
        Some(Node::File(_)) => {
            return Err(ToryggError::IOError(IoFault::NotADirectory));
        },
        None => {
            mods.put(&home, Node::Dir);
            plan.push(FsAction::CreateDir(path_clone(&home)));
            assert(plan.deep_view() =~= seq![Step::CreateDir(seq![name@])]);
        },
    }
    let mut k: usize = 0;
    while k < extracted.len()
        invariant
            extracted.wf(),
            mods.wf(),
            0 <= k <= extracted@.len(),
            home.deep_view() == seq![name@],
            whole == install_all_spec(extracted@, mod_root.deep_view(), name@, old(mods)@),
            whole == install_from(
                Copying { mods: mods@, plan: plan.deep_view() },
                mod_root.deep_view(),
                name@,
                extracted@,
                k as int,
            ),
        decreases extracted@.len() - k,
    {
        let e = extracted.path(k);
        let ghost plan0 = plan.deep_view();
        if path_below(mod_root, e) {
            let mut to = path_clone(&home);
            let mut i: usize = mod_root.len();
            assert(e.deep_view().len() == e.len());
            assert(mod_root.deep_view().len() == mod_root.len());
            assert(to.deep_view() =~= seq![name@] + e.deep_view().subrange(
                mod_root.len() as int,
                i as int,
            ));
            while i < e.len()
                invariant
                    mod_root.len() <= i <= e.len(),
                    to.deep_view() == seq![name@] + e.deep_view().subrange(
                        mod_root.len() as int,
                        i as int,
                    ),
                decreases e.len() - i,
            {
                let ghost before = to.deep_view();
                to.push(e[i].clone());
                assert(e.deep_view()[i as int] == e@[i as int]@);
                assert(to.deep_view() =~= before.push(e.deep_view()[i as int]));
                assert(to.deep_view() =~= seq![name@] + e.deep_view().subrange(
                    mod_root.len() as int,
                    i + 1,
                ));
                i += 1;
            }
            assert(e.deep_view().subrange(mod_root.len() as int, e.len() as int)
                =~= e.deep_view().skip(mod_root.len() as int));
            let found = mods.lookup(&to);
            match extracted.node(k) {
                Node::Dir => {
                    if found.is_some() {
                        return Err(ToryggError::IOError(IoFault::AlreadyExists));
                    }
                    if !mods.parent_exists(&to) {
                        return Err(ToryggError::IOError(IoFault::NotFound));
                    }
                    mods.put(&to, Node::Dir);
                    plan.push(FsAction::CreateDir(to));
                    assert(plan.deep_view() =~= plan0.push(Step::CreateDir(to.deep_view())));
                },
                Node::File(c) => {
                    if let Some(Node::Dir) = found {
                        return Err(ToryggError::IOError(IoFault::IsADirectory));
                    }
                    if !mods.parent_exists(&to) {
                        return Err(ToryggError::IOError(IoFault::NotFound));
                    }
                    mods.put(&to, Node::File(c));
                    plan.push(FsAction::CopyFile { layer: 0, source: path_clone(e), dest: to });
                    assert(plan.deep_view() =~= plan0.push(
                        Step::CopyFile { layer: 0, source: e.deep_view(), dest: to.deep_view() },
                    ));
                },
            }
        }
        k += 1;
    }
    Ok(plan)
}

/// How a mod is to be installed from its unpacked archive.
#[derive(Debug)]
pub enum Installation {
    /// The archive holds a scripted installer in `fomod_dir`: its description
    /// is to be read and its choices made, and the chosen files copied.
    Scripted { mod_root: Vec<String>, fomod_dir: Vec<String> },
    /// Everything below the mod's root is copied: the actions, in order.
    Whole(Vec<FsAction>),
}

/// Decides how to install the mod `name` from the archive that was unpacked
/// into `extracted`. The mod must not be installed yet. The root of the mod is
/// looked for, then a scripted installer in it; without one the whole mod is
/// copied into the mods directory.
pub fn install_mod(
    archive_stem: &str,
    name: &String,
    extracted: &Tree,
    mods: &mut Tree,
) -> (r: Result<Installation, ToryggError>)
    requires
        extracted.wf(),
        old(mods).wf(),
    ensures
        final(mods).wf(),
        ({
            let root = mod_root_from(extracted@, Seq::empty(), archive_stem@, extracted@.len() as nat);
            if node_at(old(mods)@, seq![name@]) == Some(Node::Dir) {
                r is Err && r->Err_0 == ToryggError::ModAlreadyExists && final(mods)@ == old(mods)@
            } else {
                match first_match_from(extracted@, root, "fomod"@, 0) {
                    Some(i) => r is Ok && final(mods)@ == old(mods)@ && match r->Ok_0 {
                        Installation::Scripted { mod_root, fomod_dir } => mod_root.deep_view() == root
                            && fomod_dir.deep_view() == extracted@[i].0,
                        Installation::Whole(_) => false,
                    },
                    None => match install_all_spec(extracted@, root, name@, old(mods)@) {
                        Ok(s) => r is Ok && final(mods)@ == s.mods && match r->Ok_0 {
                            Installation::Scripted { .. } => false,
                            Installation::Whole(plan) => plan.deep_view() == s.plan,
                        },
                        Err(e) => r is Err && r->Err_0 == e,
                    },
                }
            }
        }),
{
    if mod_installed(name, mods) {
        return Err(ToryggError::ModAlreadyExists);
    }
    let mod_root = find_mod_root(extracted, archive_stem);
    match find_fomod(extracted, &mod_root) {
        Some(i) => {
            Ok(Installation::Scripted { mod_root, fomod_dir: path_clone(extracted.path(i)) })
        },
        None => {
            let plan = install_all(extracted, &mod_root, name, mods)?;
            Ok(Installation::Whole(plan))
        },
    }
}

/// Disables the mod `name` in every profile, as its removal asks; the mod's
/// directory is then to be removed with all that it holds. A mod that is not
/// installed cannot be disabled, which is an error as soon as there is a
/// profile to disable it in.
pub fn uninstall_mod(name: &String, profiles: Vec<Profile>, installed: &Vec<String>) -> (r: Result<
    Vec<Profile>,
    ToryggError,
>)
    ensures
        profiles.len() > 0 && !installed.deep_view().contains(name@) ==> r is Err && r->Err_0 is Other,
        profiles.len() == 0 || installed.deep_view().contains(name@) ==> r is Ok && r->Ok_0.len()
            == profiles.len() && forall|i: int|
            0 <= i < profiles.len() ==> (#[trigger] r->Ok_0[i])@ == (ProfileView {
                name: profiles[i]@.name,
                mods: toggled(profiles[i]@.mods, name@, false),
            }),
{
    let mut rest = profiles;
    let mut out: Vec<Profile> = Vec::new();
    let ghost all = profiles@;
    let ghost n = profiles.len();
    while rest.len() > 0
        invariant
            out.len() + rest.len() == n,
            n == all.len(),
            all == profiles@,
            rest@ == all.skip(out.len() as int),
            out.len() > 0 ==> installed.deep_view().contains(name@),
            forall|i: int|
                0 <= i < out.len() ==> (#[trigger] out[i])@ == (ProfileView {
                    name: all[i]@.name,
                    mods: toggled(all[i]@.mods, name@, false),
                }),
        decreases rest.len(),
    {
        let mut profile = rest.remove(0);
        assert(profile == all[out.len() as int]);
        assert(rest@ =~= all.skip(out.len() + 1));
        match profile.disable_mod(name, installed) {
            Ok(_) => {},
            Err(e) => {
                return Err(e);
            },
        }
        out.push(profile);
    }
    Ok(out)
}

} // verus!
