//! Deployment by copying: what to do to a target directory so that the files
//! of an ordered list of mod layers appear in it, and what to do to take them
//! out again.
//!
//! The functions here work on [`Tree`] values that list the target directory,
//! the backup vault and each layer. They return the actions to carry out on
//! disk, in order, together with the trees as they will be afterwards.

use vstd::prelude::*;
use crate::error::{IoFault, ToryggError};
use crate::tree::{
    delete_spec, holds, has_child, is_file, node_at, parent_is_dir, path_clone, path_eq, put_spec,
    Listing, Node, RelPath, Tree,
};
use crate::util::{find_case_insensitive_path, resolve};

verus! {

/// One action on disk. Paths are relative: to the target directory, or to the
/// vault where the action says so.
#[derive(Debug)]
pub enum FsAction {
    /// Create the directory `dest` in the target.
    CreateDir(Vec<String>),
    /// Move the target's file `dest` to the same relative path in the vault,
    /// creating the vault directories that are missing above it.
    Backup(Vec<String>),
    /// Copy the file `source` of the layer with index `layer` onto `dest` in
    /// the target.
    CopyFile { layer: usize, source: Vec<String>, dest: Vec<String> },
    /// Remove the empty directory `dest` of the target.
    RemoveDir(Vec<String>),
    /// Remove the file `dest` of the target.
    RemoveFile(Vec<String>),
    /// Move the vault's file back to the same relative path in the target.
    Restore(Vec<String>),
    /// Remove the empty vault directory.
    RemoveVaultDir(Vec<String>),
}

/// An action, with its paths as sequences.
pub enum Step {
    CreateDir(RelPath),
    Backup(RelPath),
    CopyFile { layer: int, source: RelPath, dest: RelPath },
    RemoveDir(RelPath),
    RemoveFile(RelPath),
    Restore(RelPath),
    RemoveVaultDir(RelPath),
}

impl DeepView for FsAction {
    type V = Step;

    open spec fn deep_view(&self) -> Step {
        match self {
            FsAction::CreateDir(p) => Step::CreateDir(p.deep_view()),
            FsAction::Backup(p) => Step::Backup(p.deep_view()),
            FsAction::CopyFile { layer, source, dest } => Step::CopyFile {
                layer: *layer as int,
                source: source.deep_view(),
                dest: dest.deep_view(),
            },
            FsAction::RemoveDir(p) => Step::RemoveDir(p.deep_view()),
            FsAction::RemoveFile(p) => Step::RemoveFile(p.deep_view()),
            FsAction::Restore(p) => Step::Restore(p.deep_view()),
            FsAction::RemoveVaultDir(p) => Step::RemoveVaultDir(p.deep_view()),
        }
    }
}

/// A named mod: its files as a tree, in the order of a depth-first walk.
pub struct ModLayer {
    pub name: String,
    pub files: Tree,
}

/// Where a pass over the target stands: the target and the vault as they will
/// be, the paths recorded, and the actions decided so far.
pub struct Pass {
    pub tree: Listing,
    pub vault: Listing,
    pub record: Seq<RelPath>,
    pub plan: Seq<Step>,
}

/// The vault `v` with the missing directories above `p`, from the component
/// with index `k` on.
pub open spec fn with_dirs(v: Listing, p: RelPath, k: int) -> Listing
    decreases p.len() - k,
{
    if k < 1 || k >= p.len() {
        v
    } else if holds(v, p.take(k)) {
        with_dirs(v, p, k + 1)
    } else {
        with_dirs(put_spec(v, p.take(k), Node::Dir), p, k + 1)
    }
}

/// The vault `v` after the node `n` was stored at `p`.
pub open spec fn store_spec(v: Listing, p: RelPath, n: Node) -> Listing {
    put_spec(with_dirs(v, p, 1), p, n)
}

/// What one entry of a layer does to a pass. `orig` is the target as it was
/// before the pass began: only what it holds counts as unmanaged.
pub open spec fn deploy_entry(orig: Listing, s: Pass, layer: int, src: RelPath, node: Node) -> Result<
    Pass,
    ToryggError,
> {
    match resolve(s.tree, src) {
        Err(e) => Err(e),
        Ok(dest) => match node {
            Node::Dir => if node_at(s.tree, dest) == Some(Node::Dir) {
                Ok(s)
            } else if holds(s.tree, dest) {
                Err(ToryggError::IOError(IoFault::AlreadyExists))
            } else if !parent_is_dir(s.tree, dest) {
                Err(ToryggError::IOError(IoFault::NotFound))
            } else {
                Ok(
                    Pass {
                        tree: put_spec(s.tree, dest, Node::Dir),
                        vault: s.vault,
                        record: s.record.push(dest),
                        plan: s.plan.push(Step::CreateDir(dest)),
                    },
                )
            },
            Node::File(_) => if node_at(s.tree, dest) == Some(Node::Dir) {
                Err(ToryggError::IOError(IoFault::IsADirectory))
            } else if !parent_is_dir(s.tree, dest) {
                Err(ToryggError::IOError(IoFault::NotFound))
            } else {
                let displaced = holds(s.tree, dest) && holds(orig, dest) && !is_file(s.vault, dest);
                Ok(
                    Pass {
                        tree: put_spec(s.tree, dest, node),
                        vault: if displaced {
                            store_spec(s.vault, dest, node_at(s.tree, dest)->0)
                        } else {
                            s.vault
                        },
                        record: if s.record.contains(dest) {
                            s.record
                        } else {
                            s.record.push(dest)
                        },
                        plan: (if displaced {
                            s.plan.push(Step::Backup(dest))
                        } else {
                            s.plan
                        }).push(Step::CopyFile { layer, source: src, dest }),
                    },
                )
            },
        },
    }
}

/// The pass after the entries of one layer from position `k` on.
pub open spec fn run_layer(orig: Listing, s: Pass, layer: int, files: Listing, k: int) -> Result<
    Pass,
    ToryggError,
>
    decreases files.len() - k,
{
    if k < 0 || k >= files.len() {
        Ok(s)
    } else {
        match deploy_entry(orig, s, layer, files[k].0, files[k].1) {
            Ok(next) => run_layer(orig, next, layer, files, k + 1),
            Err(e) => Err(e),
        }
    }
}

/// The pass after the layers from position `j` on, each applied in full, in
/// the listed order.
pub open spec fn run_layers(orig: Listing, s: Pass, layers: Seq<Listing>, j: int) -> Result<
    Pass,
    ToryggError,
>
    decreases layers.len() - j,
{
    if j < 0 || j >= layers.len() {
        Ok(s)
    } else {
        match run_layer(orig, s, j, layers[j], 0) {
            Ok(next) => run_layers(orig, next, layers, j + 1),
            Err(e) => Err(e),
        }
    }
}

/// A pass that has done nothing yet.
pub open spec fn fresh(tree: Listing, vault: Listing) -> Pass {
    Pass { tree, vault, record: Seq::empty(), plan: Seq::empty() }
}

/// Deployment of `layers` onto `tree`, as a whole.
pub open spec fn deploy_spec(tree: Listing, vault: Listing, layers: Seq<Listing>) -> Result<
    Pass,
    ToryggError,
> {
    run_layers(tree, fresh(tree, vault), layers, 0)
}

/// Removal of the first `k` recorded paths, last first.
pub open spec fn remove_back(tree: Listing, record: Seq<RelPath>, k: int, plan: Seq<Step>) -> Result<
    (Listing, Seq<Step>),
    ToryggError,
>
    decreases k,
{
    if k <= 0 || k > record.len() {
        Ok((tree, plan))
    } else {
        let p = record[k - 1];
        match node_at(tree, p) {
            None => Err(ToryggError::IOError(IoFault::NotFound)),
            Some(Node::Dir) => if has_child(tree, p) {
                Err(ToryggError::IOError(IoFault::DirectoryNotEmpty))
            } else {
                remove_back(delete_spec(tree, p), record, k - 1, plan.push(Step::RemoveDir(p)))
            },
            Some(Node::File(_)) => remove_back(
                delete_spec(tree, p),
                record,
                k - 1,
                plan.push(Step::RemoveFile(p)),
            ),
        }
    }
}

/// Return of the first `k` entries of the vault, last first: a file goes back
/// to the target, a directory is removed from the vault.
pub open spec fn restore_back(tree: Listing, vault: Listing, k: int, plan: Seq<Step>) -> Result<
    (Listing, Seq<Step>),
    ToryggError,
>
    decreases k,
{
    if k <= 0 || k > vault.len() {
        Ok((tree, plan))
    } else {
        let p = vault[k - 1].0;
        match vault[k - 1].1 {
            Node::Dir => restore_back(tree, vault, k - 1, plan.push(Step::RemoveVaultDir(p))),
            Node::File(c) => if node_at(tree, p) == Some(Node::Dir) {
                Err(ToryggError::IOError(IoFault::IsADirectory))
            } else if !parent_is_dir(tree, p) {
                Err(ToryggError::IOError(IoFault::NotFound))
            } else {
                restore_back(
                    put_spec(tree, p, Node::File(c)),
                    vault,
                    k - 1,
                    plan.push(Step::Restore(p)),
                )
            },
        }
    }
}

/// Undeployment as a whole: the recorded paths are removed in reverse, then
/// the vault is emptied into the target.
pub open spec fn undeploy_spec(tree: Listing, vault: Listing, record: Seq<RelPath>) -> Result<
    Pass,
    ToryggError,
> {
    restore_after(remove_back(tree, record, record.len() as int, Seq::empty()), vault)
}

/// The second half of undeployment, after the removals came out as `removed`.
pub open spec fn restore_after(removed: Result<(Listing, Seq<Step>), ToryggError>, vault: Listing) -> Result<
    Pass,
    ToryggError,
> {
    match removed {
        Err(e) => Err(e),
        Ok((cleared, removals)) => emptied(
            restore_back(cleared, vault, vault.len() as int, removals),
        ),
    }
}

/// The pass that undeployment leaves once the vault's files are back.
pub open spec fn emptied(restored: Result<(Listing, Seq<Step>), ToryggError>) -> Result<
    Pass,
    ToryggError,
> {
    match restored {
        Err(e) => Err(e),
        Ok((tree, plan)) => Ok(Pass { tree, vault: Seq::empty(), record: Seq::empty(), plan }),
    }
}

/// Whether `record` holds the path `p`.
pub fn record_contains(record: &Vec<Vec<String>>, p: &Vec<String>) -> (r: bool)
    ensures
        r == record.deep_view().contains(p.deep_view()),
{
    let mut i: usize = 0;
    while i < record.len()
        invariant
            0 <= i <= record.len(),
            forall|k: int| 0 <= k < i ==> #[trigger] record.deep_view()[k] != p.deep_view(),
        decreases record.len() - i,
    {
        if path_eq(&record[i], p) {
            assert(record.deep_view()[i as int] == p.deep_view());
            return true;
        }
        i += 1;
    }
    false
}

/// Adds `p` to the end of `record` unless the record holds it.
pub fn append_if_absent(record: &mut Vec<Vec<String>>, p: &Vec<String>)
    ensures
        final(record).deep_view() == if old(record).deep_view().contains(p.deep_view()) {
            old(record).deep_view()
        } else {
            old(record).deep_view().push(p.deep_view())
        },
{
    if !record_contains(record, p) {
        let ghost before = record.deep_view();
        record.push(path_clone(p));
        assert(record.deep_view() =~= before.push(p.deep_view()));
    }
}

/// A pass in progress.
pub struct Deployment {
    /// The target as it will be once the plan is carried out.
    pub target: Tree,
    /// The vault as it will be once the plan is carried out.
    pub vault: Tree,
    /// The paths that the pass created or overwrote, first touched first.
    pub record: Vec<Vec<String>>,
    /// The actions to carry out, in order.
    pub plan: Vec<FsAction>,
}

impl View for Deployment {
    type V = Pass;

    open spec fn view(&self) -> Pass {
        Pass {
            tree: self.target@,
            vault: self.vault@,
            record: self.record.deep_view(),
            plan: self.plan.deep_view(),
        }
    }
}

/// Stores the node `n` at `p` in the vault, below the directories that `p` needs.
pub fn store(vault: &mut Tree, p: &Vec<String>, n: Node)
    requires
        old(vault).wf(),
    ensures
        final(vault).wf(),
        final(vault)@ == store_spec(old(vault)@, p.deep_view(), n),
{
    let mut prefix: Vec<String> = Vec::new();
    if p.len() >= 1 {
        prefix.push(p[0].clone());
        assert(prefix.deep_view() =~= p.deep_view().take(1));
    }
    let mut k: usize = 1;
    while k < p.len()
        invariant
            vault.wf(),
            1 <= k,
            k <= p.len() ==> prefix.deep_view() == p.deep_view().take(k as int),
            store_spec(old(vault)@, p.deep_view(), n) == put_spec(
                with_dirs(vault@, p.deep_view(), k as int),
                p.deep_view(),
                n,
            ),
        decreases p.len() - k,
    {
        if vault.find(&prefix).is_none() {
            vault.put(&prefix, Node::Dir);
        }
        let ghost before = prefix.deep_view();
        prefix.push(p[k].clone());
        assert(prefix.deep_view() =~= p.deep_view().take(k + 1)) by {
            assert(p.deep_view().take(k + 1) =~= before.push(p.deep_view()[k as int]));
        }
        k += 1;
    }
    vault.put(p, n);
}

impl Deployment {
    /// Both trees are well formed.
    pub open spec fn wf(&self) -> bool {
        self.target.wf() && self.vault.wf()
    }

    /// Applies one entry of a layer: a directory is created where the target
    /// has none; a file is copied over, after the file it displaces has gone
    /// to the vault if the target held it before the pass and the vault does
    /// not hold it yet. On an error nothing changes.
    pub fn apply_entry(&mut self, orig: &Tree, layer: usize, src: &Vec<String>, node: Node) -> (r:
        Result<(), ToryggError>)
        requires
            old(self).wf(),
            orig.wf(),
        ensures
            final(self).wf(),
            match deploy_entry(orig@, old(self)@, layer as int, src.deep_view(), node) {
                Ok(s) => r is Ok && final(self)@ == s,
                Err(e) => r is Err && r->Err_0 == e && final(self)@ == old(self)@,
            },
    {
        let dest = match find_case_insensitive_path(&self.target, src) {
            Ok(d) => d,
            Err(e) => {
                return Err(e);
            },
        };
        let found = self.target.lookup(&dest);
        match node {
            Node::Dir => {
                if let Some(Node::Dir) = found {
                    return Ok(());
                }
                if found.is_some() {
                    return Err(ToryggError::IOError(IoFault::AlreadyExists));
                }
                if !self.target.parent_exists(&dest) {
                    return Err(ToryggError::IOError(IoFault::NotFound));
                }
                self.target.put(&dest, Node::Dir);
                self.record.push(path_clone(&dest));
                self.plan.push(FsAction::CreateDir(dest));
                assert(self.record.deep_view() =~= old(self).record.deep_view().push(
                    dest.deep_view(),
                ));
                assert(self.plan.deep_view() =~= old(self).plan.deep_view().push(
                    Step::CreateDir(dest.deep_view()),
                ));
                Ok(())
            },
            Node::File(_) => {
                if let Some(Node::Dir) = found {
                    return Err(ToryggError::IOError(IoFault::IsADirectory));
                }
                if !self.target.parent_exists(&dest) {
                    return Err(ToryggError::IOError(IoFault::NotFound));
                }
                let ghost plan0 = self.plan.deep_view();
                if let Some(old_node) = found {
                    if orig.find(&dest).is_some() && !self.vault.holds_file(&dest) {
                        store(&mut self.vault, &dest, old_node);
                        self.plan.push(FsAction::Backup(path_clone(&dest)));
                        assert(self.plan.deep_view() =~= plan0.push(Step::Backup(dest.deep_view())));
                    }
                }
                let ghost plan1 = self.plan.deep_view();
                self.target.put(&dest, node);
                append_if_absent(&mut self.record, &dest);
                self.plan.push(
                    FsAction::CopyFile { layer, source: path_clone(src), dest },
                );
                assert(self.plan.deep_view() =~= plan1.push(
                    Step::CopyFile {
                        layer: layer as int,
                        source: src.deep_view(),
                        dest: dest.deep_view(),
                    },
                ));
                Ok(())
            },
        }
    }
}

} // verus!

verus! {

/// The names of `layers`, in order.
pub open spec fn layer_names(layers: Seq<ModLayer>) -> Seq<Seq<char>> {
    Seq::new(layers.len(), |i: int| layers[i].name@)
}

/// Whether the layers are the mods `mods`, one layer for each mod under its
/// name, in the same order.
pub fn layers_are(layers: &Vec<ModLayer>, mods: &Vec<String>) -> (r: bool)
    ensures
        r == (layer_names(layers@) == mods.deep_view()),
{
    assert(mods.deep_view().len() == mods.len());
    if layers.len() != mods.len() {
        return false;
    }
    let mut i: usize = 0;
    while i < layers.len()
        invariant
            layers.len() == mods.len(),
            0 <= i <= layers.len(),
            forall|k: int| 0 <= k < i ==> layers@[k].name@ == mods@[k]@,
        decreases layers.len() - i,
    {
        if layers[i].name != mods[i] {
            assert(layer_names(layers@)[i as int] == layers@[i as int].name@);
            assert(mods.deep_view()[i as int] == mods@[i as int]@);
            return false;
        }
        i += 1;
    }
    assert(layer_names(layers@) =~= mods.deep_view());
    true
}

/// The file trees of `layers`, in order.
pub open spec fn layer_files(layers: Seq<ModLayer>) -> Seq<Listing> {
    Seq::new(layers.len(), |i: int| layers[i].files@)
}

/// Every layer's tree is well formed.
pub open spec fn layers_wf(layers: Seq<ModLayer>) -> bool {
    forall|i: int| 0 <= i < layers.len() ==> (#[trigger] layers[i]).files.wf()
}

/// Plans the deployment of `layers` onto `target`: the layers in the listed
/// order, each walked from its first entry to its last, so that of two layers
/// that supply the same file the later one is the one that stays. Nothing of
/// `target` counts as unmanaged but what it holds when the pass begins.
///
/// The pass is planned as a whole before anything is done on disk: where an
/// entry cannot be applied, the error comes back and no action with it.
pub fn deploy_layers(target: Tree, vault: Tree, layers: &Vec<ModLayer>) -> (r: Result<
    Deployment,
    ToryggError,
>)
    requires
        target.wf(),
        vault.wf(),
        layers_wf(layers@),
    ensures
        match deploy_spec(target@, vault@, layer_files(layers@)) {
            Ok(s) => r is Ok && r->Ok_0@ == s && r->Ok_0.wf(),
            Err(e) => r is Err && r->Err_0 == e,
        },
{
    let orig = target.snapshot();
    let ghost lv = layer_files(layers@);
    let ghost whole = deploy_spec(target@, vault@, lv);
    let mut d = Deployment { target, vault, record: Vec::new(), plan: Vec::new() };
    assert(d@.record =~= Seq::empty());
    assert(d@.plan =~= Seq::empty());
    assert(d@ == fresh(orig@, d.vault@));
    let mut j: usize = 0;
    while j < layers.len()
        invariant
            d.wf(),
            orig.wf(),
            layers_wf(layers@),
            lv == layer_files(layers@),
            0 <= j <= layers.len(),
            whole == run_layers(orig@, d@, lv, j as int),
            whole == deploy_spec(target@, vault@, layer_files(layers@)),
        decreases layers.len() - j,
    {
        let files = &layers[j].files;
        assert(files.wf());
        assert(lv[j as int] == files@);
        let ghost start = d@;
        let mut k: usize = 0;
        while k < files.len()
            invariant
                d.wf(),
                orig.wf(),
                files.wf(),
                0 <= k <= files@.len(),
                0 <= j < lv.len(),
                lv[j as int] == files@,
                whole == run_layers(orig@, start, lv, j as int),
                whole == deploy_spec(target@, vault@, layer_files(layers@)),
                run_layer(orig@, start, j as int, files@, 0) == run_layer(
                    orig@,
                    d@,
                    j as int,
                    files@,
                    k as int,
                ),
            decreases files@.len() - k,
        {
            match d.apply_entry(&orig, j, files.path(k), files.node(k)) {
                Ok(()) => {},
                Err(e) => {
                    return Err(e);
                },
            }
            k += 1;
        }
        j += 1;
    }
    Ok(d)
}

/// Empties the vault into the target: the vault is walked from its last
/// entry to its first, so that what a directory holds comes before the
/// directory; each file goes back to the same relative path in the target,
/// each directory leaves the vault. The actions are added to `plan`.
pub fn restore_all(target: &mut Tree, vault: &Tree, plan: &mut Vec<FsAction>) -> (r: Result<
    (),
    ToryggError,
>)
    requires
        old(target).wf(),
        vault.wf(),
    ensures
        final(target).wf(),
        match restore_back(old(target)@, vault@, vault@.len() as int, old(plan).deep_view()) {
            Ok((tree, actions)) => r is Ok && final(target)@ == tree && final(plan).deep_view()
                == actions,
            Err(e) => r is Err && r->Err_0 == e,
        },
{
    let ghost whole = restore_back(old(target)@, vault@, vault@.len() as int, old(plan).deep_view());
    let mut m: usize = vault.len();
    while m > 0
        invariant
            target.wf(),
            vault.wf(),
            0 <= m <= vault@.len(),
            whole == restore_back(old(target)@, vault@, vault@.len() as int, old(plan).deep_view()),
            whole == restore_back(target@, vault@, m as int, plan.deep_view()),
        decreases m,
    {
        let p = vault.path(m - 1);
        let ghost plan0 = plan.deep_view();
        match vault.node(m - 1) {
            Node::Dir => {
                plan.push(FsAction::RemoveVaultDir(path_clone(p)));
                assert(plan.deep_view() =~= plan0.push(Step::RemoveVaultDir(p.deep_view())));
            },
            Node::File(c) => {
                if let Some(Node::Dir) = target.lookup(p) {
                    return Err(ToryggError::IOError(IoFault::IsADirectory));
                }
                if !target.parent_exists(p) {
                    return Err(ToryggError::IOError(IoFault::NotFound));
                }
                target.put(p, Node::File(c));
                plan.push(FsAction::Restore(path_clone(p)));
                assert(plan.deep_view() =~= plan0.push(Step::Restore(p.deep_view())));
            },
        }
        m -= 1;
    }
    Ok(())
}

/// Plans the reversal of a deployment: the recorded paths are removed from the
/// target in the reverse of the order in which they were recorded, so that a
/// directory comes after everything that was put into it; then the vault is
/// walked from its last entry to its first, each file going back to its place
/// in the target and each directory leaving the vault. Where a path cannot be
/// removed or a file cannot go back, the error is returned and no action with it.
pub fn undeploy_record(target: Tree, vault: &Tree, record: &Vec<Vec<String>>) -> (r: Result<
    Deployment,
    ToryggError,
>)
    requires
        target.wf(),
        vault.wf(),
    ensures
        match undeploy_spec(target@, vault@, record.deep_view()) {
            Ok(s) => r is Ok && r->Ok_0@ == s && r->Ok_0.wf(),
            Err(e) => r is Err && r->Err_0 == e,
        },
{
    let ghost rec = record.deep_view();
    let ghost whole = undeploy_spec(target@, vault@, rec);
    let mut tree = target;
    let mut plan: Vec<FsAction> = Vec::new();
    assert(plan.deep_view() =~= Seq::empty());
    let mut k: usize = record.len();
    while k > 0
        invariant
            tree.wf(),
            rec == record.deep_view(),
            0 <= k <= record.len(),
            whole == undeploy_spec(target@, vault@, record.deep_view()),
            whole == restore_after(remove_back(tree@, rec, k as int, plan.deep_view()), vault@),
        decreases k,
    {
        let p = &record[k - 1];
        assert(rec[k - 1] == p.deep_view());
        let ghost plan0 = plan.deep_view();
        match tree.lookup(p) {
            None => {
                return Err(ToryggError::IOError(IoFault::NotFound));
            },
            Some(Node::Dir) => {
                if tree.any_below(p) {
                    return Err(ToryggError::IOError(IoFault::DirectoryNotEmpty));
                }
                tree.delete(p);
                plan.push(FsAction::RemoveDir(path_clone(p)));
                assert(plan.deep_view() =~= plan0.push(Step::RemoveDir(p.deep_view())));
            },
            Some(Node::File(_)) => {
                tree.delete(p);
                plan.push(FsAction::RemoveFile(path_clone(p)));
                assert(plan.deep_view() =~= plan0.push(Step::RemoveFile(p.deep_view())));
            },
        }
        k -= 1;
    }
    restore_all(&mut tree, vault, &mut plan)?;
    let d = Deployment { target: tree, vault: Tree::new(), record: Vec::new(), plan };
    assert(d@.record =~= Seq::empty());
    Ok(d)
}

} // verus!
