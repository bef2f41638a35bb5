//! Installation of the files that were chosen in a scripted installer.

use vstd::prelude::*;
use crate::deploy::{FsAction, Step};
use crate::error::{IoFault, ToryggError};
use crate::fomod::{FileOrFolder, ItemView, Plugin, PluginView};
use crate::modmanager::Copying;
use crate::tree::{
    below, holds, node_at, parent_is_dir, path_below, path_clone, put_spec, Listing, Node, RelPath,
    Tree,
};
use crate::util::{first_match_from, is_child_match, resolve_below, resolve_from};

verus! {

/// The state with a directory at `to`: made where nothing was there.
pub open spec fn dir_ensured(s: Copying, to: RelPath) -> Result<Copying, ToryggError> {
    match node_at(s.mods, to) {
        Some(Node::Dir) => Ok(s),
        Some(Node::File(_)) => Err(ToryggError::IOError(IoFault::NotADirectory)),
        None => if !parent_is_dir(s.mods, to) {
            Err(ToryggError::IOError(IoFault::NotFound))
        } else {
            Ok(
                Copying {
                    mods: put_spec(s.mods, to, Node::Dir),
                    plan: s.plan.push(Step::CreateDir(to)),
                },
            )
        },
    }
}

/// The state with a directory at each prefix of `to` that has at least `j`
/// components and is shorter than `to`, the shortest first.
pub open spec fn dirs_ensured(s: Copying, to: RelPath, j: int) -> Result<Copying, ToryggError>
    decreases to.len() - j,
{
    if j < 0 || j >= to.len() {
        Ok(s)
    } else {
        match dir_ensured(s, to.take(j)) {
            Ok(n) => dirs_ensured(n, to, j + 1),
            Err(e) => Err(e),
        }
    }
}

/// The state after the archive's file at `from`, which is `node`, was copied
/// to `to`.
pub open spec fn copied(s: Copying, from: RelPath, node: Option<Node>, to: RelPath) -> Result<
    Copying,
    ToryggError,
> {
    match node {
        Some(Node::File(c)) => if node_at(s.mods, to) == Some(Node::Dir) {
            Err(ToryggError::IOError(IoFault::IsADirectory))
        } else if !parent_is_dir(s.mods, to) {
            Err(ToryggError::IOError(IoFault::NotFound))
        } else {
            Ok(
                Copying {
                    mods: put_spec(s.mods, to, Node::File(c)),
                    plan: s.plan.push(Step::CopyFile { layer: 0, source: from, dest: to }),
                },
            )
        },
        _ => Err(ToryggError::IOError(IoFault::NotFound)),
    }
}

/// A chosen file: its destination is resolved below the mod's directory
/// `home`, the directories above it are made, and the file is copied.
pub open spec fn file_installed(
    s: Copying,
    files: Listing,
    root: RelPath,
    home: RelPath,
    source: RelPath,
    destination: RelPath,
) -> Result<Copying, ToryggError> {
    match resolve_from(s.mods, home, Some(Node::Dir), destination) {
        Err(e) => Err(e),
        Ok(to) => match dirs_ensured(s, to, home.len() as int) {
            Err(e) => Err(e),
            Ok(n) => copied(n, root + source, node_at(files, root + source), to),
        },
    }
}

/// One entry of the archive while the folder `base` is installed: an entry
/// below `base` goes below the destination, to the path that its place below
/// the destination resolves to; a directory is made unless something is
/// there, a file is copied.
pub open spec fn folder_entry_installed(
    s: Copying,
    base: RelPath,
    home: RelPath,
    destination: RelPath,
    e: RelPath,
    node: Node,
) -> Result<Copying, ToryggError> {
    if !below(base, e) {
        Ok(s)
    } else {
        match resolve_from(s.mods, home, Some(Node::Dir), destination + e.skip(base.len() as int)) {
            Err(err) => Err(err),
            Ok(full) => match dir_ensured(s, home + destination) {
                Err(err) => Err(err),
                Ok(n) => {
                    let to = home + destination + full.skip(home.len() as int);
                    match node {
                        Node::Dir => if holds(n.mods, to) {
                            Ok(n)
                        } else if !parent_is_dir(n.mods, to) {
                            Err(ToryggError::IOError(IoFault::NotFound))
                        } else {
                            Ok(
                                Copying {
                                    mods: put_spec(n.mods, to, Node::Dir),
                                    plan: n.plan.push(Step::CreateDir(to)),
                                },
                            )
                        },
                        Node::File(_) => copied(n, e, Some(node), to),
                    }
                },
            },
        }
    }
}

/// The entries of the archive from position `k` on, for the folder `base`.
pub open spec fn folder_installed(
    s: Copying,
    files: Listing,
    base: RelPath,
    home: RelPath,
    destination: RelPath,
    k: int,
) -> Result<Copying, ToryggError>
    decreases files.len() - k,
{
    if k < 0 || k >= files.len() {
        Ok(s)
    } else {
        match folder_entry_installed(s, base, home, destination, files[k].0, files[k].1) {
            Ok(n) => folder_installed(n, files, base, home, destination, k + 1),
            Err(e) => Err(e),
        }
    }
}

/// One chosen file or folder.
pub open spec fn item_installed(s: Copying, files: Listing, root: RelPath, home: RelPath, item: ItemView) -> Result<
    Copying,
    ToryggError,
> {
    match item {
        ItemView::File { source, destination } => file_installed(
            s,
            files,
            root,
            home,
            source,
            destination,
        ),
        ItemView::Folder { source, destination } => folder_installed(
            s,
            files,
            root + source,
            home,
            destination,
            0,
        ),
    }
}

/// The files and folders of a plugin from position `k` on, in their order.
pub open spec fn items_installed(
    s: Copying,
    files: Listing,
    root: RelPath,
    home: RelPath,
    items: Seq<ItemView>,
    k: int,
) -> Result<Copying, ToryggError>
    decreases items.len() - k,
{
    if k < 0 || k >= items.len() {
        Ok(s)
    } else {
        match item_installed(s, files, root, home, items[k]) {
            Ok(n) => items_installed(n, files, root, home, items, k + 1),
            Err(e) => Err(e),
        }
    }
}

/// The chosen plugins from position `k` on, in their order. A plugin without
/// files installs nothing.
pub open spec fn plugins_installed(
    s: Copying,
    files: Listing,
    root: RelPath,
    home: RelPath,
    plugins: Seq<PluginView>,
    k: int,
) -> Result<Copying, ToryggError>
    decreases plugins.len() - k,
{
    if k < 0 || k >= plugins.len() {
        Ok(s)
    } else {
        let done = match plugins[k].files {
            Some(items) => items_installed(s, files, root, home, items, 0),
            None => Ok(s),
        };
        match done {
            Ok(n) => plugins_installed(n, files, root, home, plugins, k + 1),
            Err(e) => Err(e),
        }
    }
}

/// The installation of the chosen plugins as the mod `name`: the mod's
/// directory is made, then every plugin's files and folders are installed.
pub open spec fn fomod_install_spec(
    files: Listing,
    root: RelPath,
    name: Seq<char>,
    plugins: Seq<PluginView>,
    mods: Listing,
) -> Result<Copying, ToryggError> {
    match dir_ensured(Copying { mods, plan: Seq::empty() }, seq![name]) {
        Err(e) => Err(e),
        Ok(s) => plugins_installed(s, files, root, seq![name], plugins, 0),
    }
}

/// The plugins that were chosen.
pub open spec fn chosen(plugins: Seq<&Plugin>) -> Seq<PluginView> {
    Seq::new(plugins.len(), |i: int| plugins[i].deep_view())
}

/// The state that `mods` and `plan` stand for.
pub open spec fn now(mods: Tree, plan: Vec<FsAction>) -> Copying {
    Copying { mods: mods@, plan: plan.deep_view() }
}

/// The call came out as `want` says, and left the state that it names.
pub open spec fn came_out(r: Result<(), ToryggError>, want: Result<Copying, ToryggError>, s: Copying) -> bool {
    match want {
        Ok(n) => r is Ok && s == n,
        Err(e) => r is Err && r->Err_0 == e,
    }
}

/// `a` followed by the components of `b` from position `from` on.
pub fn join_from(a: &Vec<String>, b: &Vec<String>, from: usize) -> (r: Vec<String>)
    requires
        from <= b.len(),
    ensures
        r.deep_view() == a.deep_view() + b.deep_view().skip(from as int),
{
    let mut out = path_clone(a);
    let mut i: usize = from;
    assert(b.deep_view().len() == b.len());
    assert(out.deep_view() =~= a.deep_view() + b.deep_view().subrange(from as int, i as int));
    while i < b.len()
        invariant
            from <= i <= b.len(),
            b.deep_view().len() == b.len(),
            out.deep_view() == a.deep_view() + b.deep_view().subrange(from as int, i as int),
        decreases b.len() - i,
    {
        let ghost before = out.deep_view();
        out.push(b[i].clone());
        assert(b.deep_view()[i as int] == b@[i as int]@);
        assert(out.deep_view() =~= before.push(b.deep_view()[i as int]));
        assert(out.deep_view() =~= a.deep_view() + b.deep_view().subrange(from as int, i + 1));
        i += 1;
    }
    assert(b.deep_view().subrange(from as int, b.len() as int) =~= b.deep_view().skip(from as int));
    out
}

/// The first `n` components of `p`.
pub fn take_path(p: &Vec<String>, n: usize) -> (r: Vec<String>)
    requires
        n <= p.len(),
    ensures
        r.deep_view() == p.deep_view().take(n as int),
{
    let mut out: Vec<String> = Vec::new();
    let mut j: usize = 0;
    assert(p.deep_view().len() == p.len());
    assert(out.deep_view() =~= p.deep_view().take(0));
    while j < n
        invariant
            0 <= j <= n <= p.len(),
            p.deep_view().len() == p.len(),
            out.deep_view() == p.deep_view().take(j as int),
        decreases n - j,
    {
        let ghost before = out.deep_view();
        out.push(p[j].clone());
        assert(p.deep_view()[j as int] == p@[j as int]@);
        assert(out.deep_view() =~= p.deep_view().take(j + 1)) by {
            assert(p.deep_view().take(j + 1) =~= before.push(p.deep_view()[j as int]));
        }
        j += 1;
    }
    out
}

/// Makes sure of a directory at `to`.
pub fn ensure_dir(mods: &mut Tree, plan: &mut Vec<FsAction>, to: &Vec<String>) -> (r: Result<
    (),
    ToryggError,
>)
    requires
        old(mods).wf(),
    ensures
        final(mods).wf(),
        came_out(r, dir_ensured(now(*old(mods), *old(plan)), to.deep_view()), now(*final(mods), *final(plan))),
{
    match mods.lookup(to) {
        Some(Node::Dir) => Ok(()),
        Some(Node::File(_)) => Err(ToryggError::IOError(IoFault::NotADirectory)),
        None => {
            if !mods.parent_exists(to) {
                return Err(ToryggError::IOError(IoFault::NotFound));
            }
            let ghost plan0 = plan.deep_view();
            mods.put(to, Node::Dir);
            plan.push(FsAction::CreateDir(path_clone(to)));
            assert(plan.deep_view() =~= plan0.push(Step::CreateDir(to.deep_view())));
            Ok(())
        },
    }
}

/// Copies the archive's file at `from`, which is `node`, to `to`.
pub fn copy_file(
    mods: &mut Tree,
    plan: &mut Vec<FsAction>,
    from: &Vec<String>,
    node: Option<Node>,
    to: &Vec<String>,
) -> (r: Result<(), ToryggError>)
    requires
        old(mods).wf(),
    ensures
        final(mods).wf(),
        came_out(
            r,
            copied(now(*old(mods), *old(plan)), from.deep_view(), node, to.deep_view()),
            now(*final(mods), *final(plan)),
        ),
{
    match node {
        Some(Node::File(c)) => {
            if let Some(Node::Dir) = mods.lookup(to) {
                return Err(ToryggError::IOError(IoFault::IsADirectory));
            }
            if !mods.parent_exists(to) {
                return Err(ToryggError::IOError(IoFault::NotFound));
            }
            let ghost plan0 = plan.deep_view();
            mods.put(to, Node::File(c));
            plan.push(FsAction::CopyFile { layer: 0, source: path_clone(from), dest: path_clone(to) });
            assert(plan.deep_view() =~= plan0.push(
                Step::CopyFile { layer: 0, source: from.deep_view(), dest: to.deep_view() },
            ));
            Ok(())
        },
        _ => Err(ToryggError::IOError(IoFault::NotFound)),
    }
}

/// Installs one chosen file.
pub fn install_file(
    mods: &mut Tree,
    plan: &mut Vec<FsAction>,
    extracted: &Tree,
    mod_root: &Vec<String>,
    home: &Vec<String>,
    source: &Vec<String>,
    destination: &Vec<String>,
) -> (r: Result<(), ToryggError>)
    requires
        old(mods).wf(),
        extracted.wf(),
    ensures
        final(mods).wf(),
        came_out(
            r,
            file_installed(
                now(*old(mods), *old(plan)),
                extracted@,
                mod_root.deep_view(),
                home.deep_view(),
                source.deep_view(),
                destination.deep_view(),
            ),
            now(*final(mods), *final(plan)),
        ),
{
    let to = resolve_below(mods, home, destination)?;
    let ghost whole = file_installed(
        now(*old(mods), *old(plan)),
        extracted@,
        mod_root.deep_view(),
        home.deep_view(),
        source.deep_view(),
        destination.deep_view(),
    );
    assert(to.deep_view().len() == to.len());
    assert(home.deep_view().len() == home.len());
    let mut prefix: Vec<String> = take_path(&to, home.len());
    let mut j: usize = home.len();
    while j < to.len()
        invariant
            mods.wf(),
            home.len() <= j <= to.len(),
            to.deep_view().len() == to.len(),
            j < to.len() ==> prefix.deep_view() == to.deep_view().take(j as int),
            whole == file_installed(
                now(*old(mods), *old(plan)),
                extracted@,
                mod_root.deep_view(),
                home.deep_view(),
                source.deep_view(),
                destination.deep_view(),
            ),
            whole == match dirs_ensured(now(*mods, *plan), to.deep_view(), j as int) {
                Err(e) => Err(e),
                Ok(n) => copied(
                    n,
                    mod_root.deep_view() + source.deep_view(),
                    node_at(extracted@, mod_root.deep_view() + source.deep_view()),
                    to.deep_view(),
                ),
            },
        decreases to.len() - j,
    {
        ensure_dir(mods, plan, &prefix)?;
        let ghost before = prefix.deep_view();
        prefix.push(to[j].clone());
        assert(to.deep_view()[j as int] == to@[j as int]@);
        assert(prefix.deep_view() =~= to.deep_view().take(j + 1)) by {
            assert(to.deep_view().take(j + 1) =~= before.push(to.deep_view()[j as int]));
        }
        j += 1;
    }
    let from = join_from(mod_root, source, 0);
    assert(source.deep_view().skip(0) =~= source.deep_view());
    let node = extracted.lookup(&from);
    copy_file(mods, plan, &from, node, &to)
}

/// Installs one chosen folder: every entry of the archive below it.
pub fn install_folder(
    mods: &mut Tree,
    plan: &mut Vec<FsAction>,
    extracted: &Tree,
    base: &Vec<String>,
    home: &Vec<String>,
    destination: &Vec<String>,
) -> (r: Result<(), ToryggError>)
    requires
        old(mods).wf(),
        extracted.wf(),
    ensures
        final(mods).wf(),
        came_out(
            r,
            folder_installed(
                now(*old(mods), *old(plan)),
                extracted@,
                base.deep_view(),
                home.deep_view(),
                destination.deep_view(),
                0,
            ),
            now(*final(mods), *final(plan)),
        ),
{
    let ghost whole = folder_installed(
        now(*old(mods), *old(plan)),
        extracted@,
        base.deep_view(),
        home.deep_view(),
        destination.deep_view(),
        0,
    );
    let landing = join_from(home, destination, 0);
    assert(destination.deep_view().skip(0) =~= destination.deep_view());
    let mut k: usize = 0;
    while k < extracted.len()
        invariant
            mods.wf(),
            extracted.wf(),
            0 <= k <= extracted@.len(),
            landing.deep_view() == home.deep_view() + destination.deep_view(),
            whole == folder_installed(
                now(*old(mods), *old(plan)),
                extracted@,
                base.deep_view(),
                home.deep_view(),
                destination.deep_view(),
                0,
            ),
            whole == folder_installed(
                now(*mods, *plan),
                extracted@,
                base.deep_view(),
                home.deep_view(),
                destination.deep_view(),
                k as int,
            ),
        decreases extracted@.len() - k,
    {
        let e = extracted.path(k);
        if path_below(base, e) {
            assert(e.deep_view().len() == e.len());
            assert(base.deep_view().len() == base.len());
            assert(home.deep_view().len() == home.len());
            let wanted = join_from(destination, e, base.len());
            let full = resolve_below(mods, home, &wanted)?;
            ensure_dir(mods, plan, &landing)?;
            let to = join_from(&landing, &full, home.len());
            match extracted.node(k) {
                Node::Dir => {
                    if mods.find(&to).is_none() {
                        if !mods.parent_exists(&to) {
                            return Err(ToryggError::IOError(IoFault::NotFound));
                        }
                        let ghost plan0 = plan.deep_view();
                        mods.put(&to, Node::Dir);
                        plan.push(FsAction::CreateDir(path_clone(&to)));
                        assert(plan.deep_view() =~= plan0.push(Step::CreateDir(to.deep_view())));
                    }
                },
                Node::File(c) => {
                    copy_file(mods, plan, e, Some(Node::File(c)), &to)?;
                },
            }
        }
        k += 1;
    }
    Ok(())
}

/// Plans the installation of the chosen plugins as the mod `name`: for each
/// plugin in order, each of its files and folders in order. In the actions,
/// a source is relative to the unpacked archive and a destination to the mods
/// directory. On an error `mods` is of no use any more.
pub fn fomod_install(
    extracted: &Tree,
    mod_root: &Vec<String>,
    name: &String,
    plugins: &Vec<&Plugin>,
    mods: &mut Tree,
) -> (r: Result<Vec<FsAction>, ToryggError>)
    requires
        extracted.wf(),
        old(mods).wf(),
    ensures
        final(mods).wf(),
        match fomod_install_spec(
            extracted@,
            mod_root.deep_view(),
            name@,
            chosen(plugins@),
            old(mods)@,
        ) {
            Ok(s) => r is Ok && r->Ok_0.deep_view() == s.plan && final(mods)@ == s.mods,
            Err(e) => r is Err && r->Err_0 == e,
        },
{
    let ghost whole = fomod_install_spec(
        extracted@,
        mod_root.deep_view(),
        name@,
        chosen(plugins@),
        old(mods)@,
    );
    let mut plan: Vec<FsAction> = Vec::new();
    assert(plan.deep_view() =~= Seq::<Step>::empty());
    let mut home: Vec<String> = Vec::new();
    home.push(name.clone());
    assert(home.deep_view() =~= seq![name@]);
    ensure_dir(mods, &mut plan, &home)?;
    let mut k: usize = 0;
    while k < plugins.len()
        invariant
            mods.wf(),
            extracted.wf(),
            0 <= k <= plugins.len(),
            home.deep_view() == seq![name@],
            whole == fomod_install_spec(
                extracted@,
                mod_root.deep_view(),
                name@,
                chosen(plugins@),
                old(mods)@,
            ),
            whole == plugins_installed(
                now(*mods, plan),
                extracted@,
                mod_root.deep_view(),
                home.deep_view(),
                chosen(plugins@),
                k as int,
            ),
        decreases plugins.len() - k,
    {
        assert(chosen(plugins@)[k as int] == plugins@[k as int].deep_view());
        match plugins[k].files() {
            None => {},
            Some(items) => {
                let ghost views = items.deep_view();
                let mut i: usize = 0;
                while i < items.len()
                    invariant
                        mods.wf(),
                        extracted.wf(),
                        0 <= i <= items.len(),
                        views == items.deep_view(),
                        whole == fomod_install_spec(
                            extracted@,
                            mod_root.deep_view(),
                            name@,
                            chosen(plugins@),
                            old(mods)@,
                        ),
                        whole == match items_installed(
                            now(*mods, plan),
                            extracted@,
                            mod_root.deep_view(),
                            home.deep_view(),
                            views,
                            i as int,
                        ) {
                            Ok(n) => plugins_installed(
                                n,
                                extracted@,
                                mod_root.deep_view(),
                                home.deep_view(),
                                chosen(plugins@),
                                k + 1,
                            ),
                            Err(e) => Err(e),
                        },
                    decreases items.len() - i,
                {
                    assert(views[i as int] == items@[i as int].deep_view());
                    match &items[i] {
                        FileOrFolder::File { source, destination } => {
                            install_file(
                                mods,
                                &mut plan,
                                extracted,
                                mod_root,
                                &home,
                                source,
                                destination,
                            )?;
                        },
                        FileOrFolder::Folder { source, destination } => {
                            let base = join_from(mod_root, source, 0);
                            assert(source.deep_view().skip(0) =~= source.deep_view());
                            install_folder(mods, &mut plan, extracted, &base, &home, destination)?;
                        },
                    }
                    i += 1;
                }
            },
        }
        k += 1;
    }
    Ok(plan)
}

/// The position of the installer's description: the first entry directly in
/// `fomod_dir` whose name is `ModuleConfig.xml`, case ignored. Without one
/// the mod is installed whole, after the installer's directory was removed.
pub fn module_config(extracted: &Tree, fomod_dir: &Vec<String>) -> (r: Option<usize>)
    requires
        extracted.wf(),
    ensures
        match first_match_from(extracted@, fomod_dir.deep_view(), "ModuleConfig.xml"@, 0) {
            Some(i) => r is Some && r->0 as int == i && 0 <= i < extracted@.len(),
            None => r is None,
        },
{
    let name = "ModuleConfig.xml".to_owned();
    let mut i: usize = 0;
    while i < extracted.len()
        invariant
            extracted.wf(),
            0 <= i <= extracted@.len(),
            name@ == "ModuleConfig.xml"@,
            first_match_from(extracted@, fomod_dir.deep_view(), "ModuleConfig.xml"@, 0)
                == first_match_from(
                extracted@,
                fomod_dir.deep_view(),
                "ModuleConfig.xml"@,
                i as int,
            ),
        decreases extracted@.len() - i,
    {
        if is_child_match(extracted.path(i), fomod_dir, &name) {
            return Some(i);
        }
        assert(first_match_from(extracted@, fomod_dir.deep_view(), "ModuleConfig.xml"@, i as int)
            == first_match_from(extracted@, fomod_dir.deep_view(), "ModuleConfig.xml"@, i + 1));
        i += 1;
    }
    None
}

} // verus!
