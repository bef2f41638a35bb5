//! What holds of deployment and undeployment, proved over the trees.

use vstd::prelude::*;
use crate::deploy::{
    deploy_entry, deploy_spec, fresh, remove_back, restore_back, run_layer, run_layers, store_spec,
    undeploy_spec, with_dirs, Pass, Step,
};
use crate::error::ToryggError;
use crate::tree::{
    below, delete_spec, has_child, holds, index_of, is_file, lemma_delete, lemma_entry_found,
    lemma_put, no_dup, node_at, parent_closed, parent_is_dir, put_spec, Listing, Node, RelPath,
};
use crate::util::resolve;

verus! {

/// The state that a pass keeps with respect to the target as it was before
/// the pass, `orig`: what is not recorded is untouched; every file of the
/// vault is a recorded path with the content that `orig` had there; and a
/// recorded path without a file in the vault was not in `orig` at all.
pub open spec fn kept(orig: Listing, s: Pass) -> bool {
    &&& no_dup(orig)
    &&& no_dup(s.tree)
    &&& no_dup(s.vault)
    &&& forall|q: RelPath| !s.record.contains(q) ==> #[trigger] node_at(s.tree, q) == node_at(orig, q)
    &&& forall|q: RelPath| #[trigger]
        is_file(s.vault, q) ==> node_at(s.vault, q) == node_at(orig, q) && s.record.contains(q)
    &&& forall|q: RelPath| #[trigger] s.record.contains(q) && !is_file(s.vault, q) ==> !holds(orig, q)
}

proof fn lemma_push_contains(s: Seq<RelPath>, x: RelPath, q: RelPath)
    ensures
        s.push(x).contains(q) == (s.contains(q) || q == x),
{
    let t = s.push(x);
    if s.contains(q) {
        let i = choose|i: int| 0 <= i < s.len() && s[i] == q;
        assert(t[i] == q);
    }
    if q == x {
        assert(t[s.len() as int] == q);
    }
    if t.contains(q) {
        let i = choose|i: int| 0 <= i < t.len() && t[i] == q;
        if i < s.len() {
            assert(s[i] == q);
        }
    }
}

proof fn lemma_with_dirs(v: Listing, p: RelPath, k: int, q: RelPath)
    requires
        no_dup(v),
    ensures
        no_dup(with_dirs(v, p, k)),
        is_file(with_dirs(v, p, k), q) == is_file(v, q),
        is_file(v, q) ==> node_at(with_dirs(v, p, k), q) == node_at(v, q),
    decreases p.len() - k,
{
    if k < 1 || k >= p.len() {
    } else if holds(v, p.take(k)) {
        lemma_with_dirs(v, p, k + 1, q);
    } else {
        let v1 = put_spec(v, p.take(k), Node::Dir);
        lemma_put(v, p.take(k), Node::Dir, q);
        lemma_with_dirs(v1, p, k + 1, q);
    }
}

/// Storing a file in the vault adds that file and changes no other file of it.
pub proof fn lemma_store(v: Listing, p: RelPath, n: Node, q: RelPath)
    requires
        no_dup(v),
        n is File,
    ensures
        no_dup(store_spec(v, p, n)),
        is_file(store_spec(v, p, n), q) == (q == p || is_file(v, q)),
        q == p ==> node_at(store_spec(v, p, n), q) == Some(n),
        q != p && is_file(v, q) ==> node_at(store_spec(v, p, n), q) == node_at(v, q),
{
    lemma_with_dirs(v, p, 1, q);
    lemma_put(with_dirs(v, p, 1), p, n, q);
}

/// One entry of a layer keeps the state of the pass.
pub proof fn lemma_entry_keeps(orig: Listing, s: Pass, layer: int, src: RelPath, node: Node)
    requires
        kept(orig, s),
        deploy_entry(orig, s, layer, src, node) is Ok,
    ensures
        kept(orig, deploy_entry(orig, s, layer, src, node)->Ok_0),
{
    let n = deploy_entry(orig, s, layer, src, node)->Ok_0;
    let dest = resolve(s.tree, src)->Ok_0;
    if n != s {
        lemma_put(s.tree, dest, node, dest);
        assert(n.tree == put_spec(s.tree, dest, node));
        assert forall|q: RelPath| n.record.contains(q) == (s.record.contains(q) || q == dest) by {
            lemma_push_contains(s.record, dest, q);
        }
        let displaced = node is File && holds(s.tree, dest) && holds(orig, dest) && !is_file(
            s.vault,
            dest,
        );
        if displaced {
            let old_node = node_at(s.tree, dest)->0;
            assert(old_node is File);
            lemma_store(s.vault, dest, old_node, dest);
            assert(n.vault == store_spec(s.vault, dest, old_node));
            if s.record.contains(dest) {
                assert(!holds(orig, dest));
            }
            assert(node_at(s.tree, dest) == node_at(orig, dest));
        } else {
            assert(n.vault == s.vault);
        }
        assert forall|q: RelPath| !n.record.contains(q) implies #[trigger] node_at(n.tree, q)
            == node_at(orig, q) by {
            lemma_put(s.tree, dest, node, q);
            assert(node_at(s.tree, q) == node_at(orig, q));
        }
        assert forall|q: RelPath| #[trigger] is_file(n.vault, q) implies node_at(n.vault, q)
            == node_at(orig, q) && n.record.contains(q) by {
            if displaced {
                lemma_store(s.vault, dest, node_at(s.tree, dest)->0, q);
                if q != dest {
                    assert(is_file(s.vault, q));
                }
            } else {
                assert(is_file(s.vault, q));
            }
        }
        assert forall|q: RelPath| #[trigger] n.record.contains(q) && !is_file(n.vault, q) implies !holds(
            orig,
            q,
        ) by {
            if displaced {
                lemma_store(s.vault, dest, node_at(s.tree, dest)->0, q);
            }
            if s.record.contains(q) {
                assert(!is_file(s.vault, q));
            } else {
                assert(q == dest);
                assert(node_at(s.tree, dest) == node_at(orig, dest));
            }
        }
    }
}

/// The entries of a layer keep the state of the pass.
pub proof fn lemma_layer_keeps(orig: Listing, s: Pass, layer: int, files: Listing, k: int)
    requires
        kept(orig, s),
        run_layer(orig, s, layer, files, k) is Ok,
    ensures
        kept(orig, run_layer(orig, s, layer, files, k)->Ok_0),
    decreases files.len() - k,
{
    if 0 <= k < files.len() {
        lemma_entry_keeps(orig, s, layer, files[k].0, files[k].1);
        let next = deploy_entry(orig, s, layer, files[k].0, files[k].1)->Ok_0;
        lemma_layer_keeps(orig, next, layer, files, k + 1);
    }
}

/// The layers keep the state of the pass.
pub proof fn lemma_layers_keep(orig: Listing, s: Pass, layers: Seq<Listing>, j: int)
    requires
        kept(orig, s),
        run_layers(orig, s, layers, j) is Ok,
    ensures
        kept(orig, run_layers(orig, s, layers, j)->Ok_0),
    decreases layers.len() - j,
{
    if 0 <= j < layers.len() {
        lemma_layer_keeps(orig, s, j, layers[j], 0);
        let next = run_layer(orig, s, j, layers[j], 0)->Ok_0;
        lemma_layers_keep(orig, next, layers, j + 1);
    }
}

/// A pass that has done nothing keeps its state when the vault is empty.
pub proof fn lemma_fresh_kept(tree: Listing)
    requires
        no_dup(tree),
    ensures
        kept(tree, fresh(tree, Seq::empty())),
{
    let s = fresh(tree, Seq::empty());
    assert forall|q: RelPath| !(#[trigger] is_file(s.vault, q)) by {
        if holds(s.vault, q) {
            let i = choose|i: int| 0 <= i < s.vault.len() && (#[trigger] s.vault[i]).0 == q;
        }
    }
    assert forall|q: RelPath| !(#[trigger] s.record.contains(q)) by {}
}

/// At most one backup: whatever the layers do to a path and however many of
/// them supply it, a file that deployment leaves in the vault is the file
/// that the target held at that path before the deployment.
pub proof fn lemma_vault_keeps_first_content(tree: Listing, layers: Seq<Listing>, q: RelPath)
    requires
        no_dup(tree),
        deploy_spec(tree, Seq::empty(), layers) is Ok,
    ensures
        ({
            let d = deploy_spec(tree, Seq::empty(), layers)->Ok_0;
            is_file(d.vault, q) ==> node_at(d.vault, q) == node_at(tree, q)
        }),
{
    lemma_fresh_kept(tree);
    lemma_layers_keep(tree, fresh(tree, Seq::empty()), layers, 0);
}

/// Removal of recorded paths takes exactly those paths out of the tree.
pub proof fn lemma_remove_back(tree: Listing, record: Seq<RelPath>, k: int, plan: Seq<Step>, q: RelPath)
    requires
        no_dup(tree),
        0 <= k <= record.len(),
        remove_back(tree, record, k, plan) is Ok,
    ensures
        no_dup(remove_back(tree, record, k, plan)->Ok_0.0),
        node_at(remove_back(tree, record, k, plan)->Ok_0.0, q) == if record.take(k).contains(q) {
            None
        } else {
            node_at(tree, q)
        },
    decreases k,
{
    if k > 0 {
        let p = record[k - 1];
        let step = if node_at(tree, p) == Some(Node::Dir) {
            Step::RemoveDir(p)
        } else {
            Step::RemoveFile(p)
        };
        lemma_delete(tree, p, q);
        lemma_remove_back(delete_spec(tree, p), record, k - 1, plan.push(step), q);
        assert(record.take(k) =~= record.take(k - 1).push(p));
        lemma_push_contains(record.take(k - 1), p, q);
    } else {
        assert(record.take(0) =~= Seq::<RelPath>::empty());
    }
}

/// Some file among the first `k` entries of `vault` has the path `q`.
pub open spec fn file_among(vault: Listing, k: int, q: RelPath) -> bool {
    exists|i: int| 0 <= i < k && i < vault.len() && (#[trigger] vault[i]).0 == q && vault[i].1 is File
}

/// Return of the vault puts each of its files at its path in the tree and
/// changes nothing else.
pub proof fn lemma_restore_back(tree: Listing, vault: Listing, k: int, plan: Seq<Step>, q: RelPath)
    requires
        no_dup(tree),
        no_dup(vault),
        0 <= k <= vault.len(),
        restore_back(tree, vault, k, plan) is Ok,
    ensures
        no_dup(restore_back(tree, vault, k, plan)->Ok_0.0),
        node_at(restore_back(tree, vault, k, plan)->Ok_0.0, q) == if file_among(vault, k, q) {
            node_at(vault, q)
        } else {
            node_at(tree, q)
        },
    decreases k,
{
    if k > 0 {
        let p = vault[k - 1].0;
        let n = vault[k - 1].1;
        lemma_entry_found(vault, k - 1);
        assert(!file_among(vault, k - 1, p)) by {
            if file_among(vault, k - 1, p) {
                let i = choose|i: int|
                    0 <= i < k - 1 && i < vault.len() && (#[trigger] vault[i]).0 == p
                        && vault[i].1 is File;
                assert(vault[i].0 != vault[k - 1].0);
            }
        }
        if q != p {
            if file_among(vault, k, q) {
                let i = choose|i: int|
                    0 <= i < k && i < vault.len() && (#[trigger] vault[i]).0 == q && vault[i].1 is File;
                assert(i < k - 1);
                assert(file_among(vault, k - 1, q));
            }
            if file_among(vault, k - 1, q) {
                let i = choose|i: int|
                    0 <= i < k - 1 && i < vault.len() && (#[trigger] vault[i]).0 == q
                        && vault[i].1 is File;
                assert(file_among(vault, k, q));
            }
        }
        match n {
            Node::Dir => {
                lemma_restore_back(tree, vault, k - 1, plan.push(Step::RemoveVaultDir(p)), q);
                if file_among(vault, k, p) {
                    let i = choose|i: int|
                        0 <= i < k && i < vault.len() && (#[trigger] vault[i]).0 == p
                            && vault[i].1 is File;
                    if i < k - 1 {
                        assert(vault[i].0 != vault[k - 1].0);
                    }
                    assert(false);
                }
            },
            Node::File(c) => {
                lemma_put(tree, p, n, q);
                lemma_restore_back(put_spec(tree, p, n), vault, k - 1, plan.push(Step::Restore(p)), q);
                assert(file_among(vault, k, p));
            },
        }
    }
}

/// Round trip: where deployment onto a target with an empty vault succeeds and
/// the undeployment of what it recorded succeeds too, the target holds at
/// every path what it held before, and nothing else; the vault is empty.
pub proof fn lemma_deploy_undeploy_round_trip(tree: Listing, layers: Seq<Listing>)
    requires
        no_dup(tree),
        deploy_spec(tree, Seq::empty(), layers) is Ok,
        ({
            let d = deploy_spec(tree, Seq::empty(), layers)->Ok_0;
            undeploy_spec(d.tree, d.vault, d.record) is Ok
        }),
    ensures
        ({
            let d = deploy_spec(tree, Seq::empty(), layers)->Ok_0;
            let u = undeploy_spec(d.tree, d.vault, d.record)->Ok_0;
            &&& forall|q: RelPath| #[trigger] node_at(u.tree, q) == node_at(tree, q)
            &&& u.vault.len() == 0
            &&& u.record.len() == 0
        }),
{
    let d = deploy_spec(tree, Seq::empty(), layers)->Ok_0;
    let u = undeploy_spec(d.tree, d.vault, d.record)->Ok_0;
    lemma_fresh_kept(tree);
    lemma_layers_keep(tree, fresh(tree, Seq::empty()), layers, 0);
    assert(kept(tree, d));
    let removed = remove_back(d.tree, d.record, d.record.len() as int, Seq::empty());
    let cleared = removed->Ok_0.0;
    let removals = removed->Ok_0.1;
    let restored = restore_back(cleared, d.vault, d.vault.len() as int, removals);
    assert(u.tree == restored->Ok_0.0);
    assert(d.record.take(d.record.len() as int) =~= d.record);
    assert forall|q: RelPath| #[trigger] node_at(u.tree, q) == node_at(tree, q) by {
        lemma_remove_back(d.tree, d.record, d.record.len() as int, Seq::empty(), q);
        lemma_restore_back(cleared, d.vault, d.vault.len() as int, removals, q);
        if file_among(d.vault, d.vault.len() as int, q) {
            let i = choose|i: int|
                0 <= i < d.vault.len() && i < d.vault.len() && (#[trigger] d.vault[i]).0 == q
                    && d.vault[i].1 is File;
            lemma_entry_found(d.vault, i);
            assert(is_file(d.vault, q));
        } else {
            if is_file(d.vault, q) {
                let i = index_of(d.vault, q);
                lemma_entry_found(d.vault, i);
                assert(file_among(d.vault, d.vault.len() as int, q));
            }
            if d.record.contains(q) {
                assert(!holds(tree, q));
            } else {
                assert(node_at(d.tree, q) == node_at(tree, q));
            }
        }
    }
}

/// Some entry of the layer, from position `k` on, resolves at its turn to `q`.
pub open spec fn layer_touches(
    orig: Listing,
    s: Pass,
    layer: int,
    files: Listing,
    k: int,
    q: RelPath,
) -> bool
    decreases files.len() - k,
{
    if k < 0 || k >= files.len() {
        false
    } else {
        resolve(s.tree, files[k].0) == Ok::<RelPath, ToryggError>(q) || match deploy_entry(
            orig,
            s,
            layer,
            files[k].0,
            files[k].1,
        ) {
            Ok(next) => layer_touches(orig, next, layer, files, k + 1, q),
            Err(_) => false,
        }
    }
}

/// Some entry of the layers from position `j` on resolves at its turn to `q`.
pub open spec fn layers_touch(orig: Listing, s: Pass, layers: Seq<Listing>, j: int, q: RelPath) -> bool
    decreases layers.len() - j,
{
    if j < 0 || j >= layers.len() {
        false
    } else {
        layer_touches(orig, s, j, layers[j], 0, q) || match run_layer(orig, s, j, layers[j], 0) {
            Ok(next) => layers_touch(orig, next, layers, j + 1, q),
            Err(_) => false,
        }
    }
}

/// An entry changes the target at the path it resolves to and nowhere else,
/// and leaves there what it is itself: a directory, or a file of its content.
pub proof fn lemma_entry_frame(orig: Listing, s: Pass, layer: int, src: RelPath, node: Node, q: RelPath)
    requires
        no_dup(s.tree),
        deploy_entry(orig, s, layer, src, node) is Ok,
    ensures
        no_dup(deploy_entry(orig, s, layer, src, node)->Ok_0.tree),
        resolve(s.tree, src) != Ok::<RelPath, ToryggError>(q) ==> node_at(
            deploy_entry(orig, s, layer, src, node)->Ok_0.tree,
            q,
        ) == node_at(s.tree, q),
        resolve(s.tree, src) == Ok::<RelPath, ToryggError>(q) ==> node_at(
            deploy_entry(orig, s, layer, src, node)->Ok_0.tree,
            q,
        ) == Some(node),
{
    let dest = resolve(s.tree, src)->Ok_0;
    lemma_put(s.tree, dest, node, q);
}

/// The rest of a layer leaves alone every path that none of its entries
/// resolves to.
pub proof fn lemma_layer_frame(orig: Listing, s: Pass, layer: int, files: Listing, k: int, q: RelPath)
    requires
        no_dup(s.tree),
        run_layer(orig, s, layer, files, k) is Ok,
        !layer_touches(orig, s, layer, files, k, q),
    ensures
        no_dup(run_layer(orig, s, layer, files, k)->Ok_0.tree),
        node_at(run_layer(orig, s, layer, files, k)->Ok_0.tree, q) == node_at(s.tree, q),
    decreases files.len() - k,
{
    if 0 <= k < files.len() {
        lemma_entry_frame(orig, s, layer, files[k].0, files[k].1, q);
        let next = deploy_entry(orig, s, layer, files[k].0, files[k].1)->Ok_0;
        lemma_layer_frame(orig, next, layer, files, k + 1, q);
    }
}

/// The layers from `j` on leave alone every path that none of their entries
/// resolves to.
pub proof fn lemma_layers_frame(orig: Listing, s: Pass, layers: Seq<Listing>, j: int, q: RelPath)
    requires
        no_dup(s.tree),
        run_layers(orig, s, layers, j) is Ok,
        !layers_touch(orig, s, layers, j, q),
    ensures
        node_at(run_layers(orig, s, layers, j)->Ok_0.tree, q) == node_at(s.tree, q),
    decreases layers.len() - j,
{
    if 0 <= j < layers.len() {
        lemma_layer_frame(orig, s, j, layers[j], 0, q);
        let next = run_layer(orig, s, j, layers[j], 0)->Ok_0;
        lemma_layers_frame(orig, next, layers, j + 1, q);
    }
}

/// Override ordering: the last writer wins. Let the pass stand at `s` when the
/// turn of entry `k` of layer `j` comes, let that entry be a file that resolves
/// to `q`, and let no later entry, of this layer or of a later one, resolve to
/// `q`. Then the target ends with that entry's content at `q`.
pub proof fn lemma_last_writer_wins(
    orig: Listing,
    s: Pass,
    layers: Seq<Listing>,
    j: int,
    k: int,
    q: RelPath,
)
    requires
        no_dup(s.tree),
        0 <= j < layers.len(),
        0 <= k < layers[j].len(),
        layers[j][k].1 is File,
        resolve(s.tree, layers[j][k].0) == Ok::<RelPath, ToryggError>(q),
        run_layer(orig, s, j, layers[j], k) is Ok,
        run_layers(orig, run_layer(orig, s, j, layers[j], k)->Ok_0, layers, j + 1) is Ok,
        !layer_touches(
            orig,
            deploy_entry(orig, s, j, layers[j][k].0, layers[j][k].1)->Ok_0,
            j,
            layers[j],
            k + 1,
            q,
        ),
        !layers_touch(orig, run_layer(orig, s, j, layers[j], k)->Ok_0, layers, j + 1, q),
    ensures
        node_at(
            run_layers(orig, run_layer(orig, s, j, layers[j], k)->Ok_0, layers, j + 1)->Ok_0.tree,
            q,
        ) == Some(layers[j][k].1),
{
    let files = layers[j];
    lemma_entry_frame(orig, s, j, files[k].0, files[k].1, q);
    let next = deploy_entry(orig, s, j, files[k].0, files[k].1)->Ok_0;
    lemma_layer_frame(orig, next, j, files, k + 1, q);
    let mid = run_layer(orig, s, j, files, k)->Ok_0;
    lemma_layers_frame(orig, mid, layers, j + 1, q);
}

/// What the last of the layer's entries from position `k` on that resolves
/// to `q` at its turn is: a directory, or a file of some content. None where
/// no entry resolves to `q`.
pub open spec fn layer_puts(
    orig: Listing,
    s: Pass,
    layer: int,
    files: Listing,
    k: int,
    q: RelPath,
) -> Option<Node>
    decreases files.len() - k,
{
    if k < 0 || k >= files.len() {
        None
    } else {
        match deploy_entry(orig, s, layer, files[k].0, files[k].1) {
            Err(_) => None,
            Ok(next) => match layer_puts(orig, next, layer, files, k + 1, q) {
                Some(n) => Some(n),
                None => if resolve(s.tree, files[k].0) == Ok::<RelPath, ToryggError>(q) {
                    Some(files[k].1)
                } else {
                    None
                },
            },
        }
    }
}

/// What the last entry that resolves to `q` at its turn is, over the layers
/// from position `j` on in their order, each walked from its first entry to
/// its last. None where no entry resolves to `q`.
pub open spec fn layers_put(orig: Listing, s: Pass, layers: Seq<Listing>, j: int, q: RelPath) -> Option<
    Node,
>
    decreases layers.len() - j,
{
    if j < 0 || j >= layers.len() {
        None
    } else {
        match run_layer(orig, s, j, layers[j], 0) {
            Err(_) => None,
            Ok(next) => match layers_put(orig, next, layers, j + 1, q) {
                Some(n) => Some(n),
                None => layer_puts(orig, s, j, layers[j], 0, q),
            },
        }
    }
}

/// What a path holds after a layer: what the last entry that resolved to it
/// is, and what it held before where none did.
pub proof fn lemma_layer_last_entry(
    orig: Listing,
    s: Pass,
    layer: int,
    files: Listing,
    k: int,
    q: RelPath,
)
    requires
        no_dup(s.tree),
        run_layer(orig, s, layer, files, k) is Ok,
    ensures
        no_dup(run_layer(orig, s, layer, files, k)->Ok_0.tree),
        node_at(run_layer(orig, s, layer, files, k)->Ok_0.tree, q) == match layer_puts(
            orig,
            s,
            layer,
            files,
            k,
            q,
        ) {
            Some(n) => Some(n),
            None => node_at(s.tree, q),
        },
    decreases files.len() - k,
{
    if 0 <= k < files.len() {
        lemma_entry_frame(orig, s, layer, files[k].0, files[k].1, q);
        let next = deploy_entry(orig, s, layer, files[k].0, files[k].1)->Ok_0;
        lemma_layer_last_entry(orig, next, layer, files, k + 1, q);
    }
}

/// What a path holds after the layers from `j` on: what the last entry that
/// resolved to it is, and what it held before where none did.
pub proof fn lemma_layers_last_entry(orig: Listing, s: Pass, layers: Seq<Listing>, j: int, q: RelPath)
    requires
        no_dup(s.tree),
        run_layers(orig, s, layers, j) is Ok,
    ensures
        node_at(run_layers(orig, s, layers, j)->Ok_0.tree, q) == match layers_put(
            orig,
            s,
            layers,
            j,
            q,
        ) {
            Some(n) => Some(n),
            None => node_at(s.tree, q),
        },
    decreases layers.len() - j,
{
    if 0 <= j < layers.len() {
        lemma_layer_last_entry(orig, s, j, layers[j], 0, q);
        let next = run_layer(orig, s, j, layers[j], 0)->Ok_0;
        lemma_layers_last_entry(orig, next, layers, j + 1, q);
    }
}

/// Override ordering, for every deployment and every path: after a
/// deployment the target holds at a path what the last entry that resolved
/// to it is, the entries taken in the order of the layers and, within a
/// layer, of its walk. Of two mods that supply a file for the same path, the
/// one listed later is the one whose content stays. A path that no entry
/// resolved to holds what it held.
pub proof fn lemma_last_entry_decides(tree: Listing, vault: Listing, layers: Seq<Listing>, q: RelPath)
    requires
        no_dup(tree),
        deploy_spec(tree, vault, layers) is Ok,
    ensures
        node_at(deploy_spec(tree, vault, layers)->Ok_0.tree, q) == match layers_put(
            tree,
            fresh(tree, vault),
            layers,
            0,
            q,
        ) {
            Some(n) => Some(n),
            None => node_at(tree, q),
        },
{
    lemma_layers_last_entry(tree, fresh(tree, vault), layers, 0, q);
}

proof fn lemma_entry_recorded(orig: Listing, s: Pass, layer: int, src: RelPath, node: Node, q: RelPath)
    requires
        deploy_entry(orig, s, layer, src, node) is Ok,
    ensures
        deploy_entry(orig, s, layer, src, node)->Ok_0.record.contains(q) ==> s.record.contains(q)
            || resolve(s.tree, src) == Ok::<RelPath, ToryggError>(q),
{
    lemma_push_contains(s.record, resolve(s.tree, src)->Ok_0, q);
}

/// A path that a layer records is a path that one of its entries resolved to.
pub proof fn lemma_layer_recorded(
    orig: Listing,
    s: Pass,
    layer: int,
    files: Listing,
    k: int,
    q: RelPath,
)
    requires
        run_layer(orig, s, layer, files, k) is Ok,
    ensures
        run_layer(orig, s, layer, files, k)->Ok_0.record.contains(q) ==> s.record.contains(q)
            || layer_puts(orig, s, layer, files, k, q) is Some,
    decreases files.len() - k,
{
    if 0 <= k < files.len() {
        lemma_entry_recorded(orig, s, layer, files[k].0, files[k].1, q);
        let next = deploy_entry(orig, s, layer, files[k].0, files[k].1)->Ok_0;
        lemma_layer_recorded(orig, next, layer, files, k + 1, q);
    }
}

/// A path that the layers record is a path that one of their entries
/// resolved to.
pub proof fn lemma_recorded_was_put(orig: Listing, s: Pass, layers: Seq<Listing>, j: int, q: RelPath)
    requires
        run_layers(orig, s, layers, j) is Ok,
    ensures
        run_layers(orig, s, layers, j)->Ok_0.record.contains(q) ==> s.record.contains(q)
            || layers_put(orig, s, layers, j, q) is Some,
    decreases layers.len() - j,
{
    if 0 <= j < layers.len() {
        lemma_layer_recorded(orig, s, j, layers[j], 0, q);
        let next = run_layer(orig, s, j, layers[j], 0)->Ok_0;
        lemma_recorded_was_put(orig, next, layers, j + 1, q);
    }
}

/// First content kept, last content shown: after a deployment onto a target
/// with an empty vault, a file of the vault is the file that the target held
/// at that path before, however many mods supplied the path, and the target
/// holds there what the last entry that resolved to the path is.
pub proof fn lemma_first_kept_last_shown(tree: Listing, layers: Seq<Listing>, q: RelPath)
    requires
        no_dup(tree),
        deploy_spec(tree, Seq::empty(), layers) is Ok,
    ensures
        ({
            let d = deploy_spec(tree, Seq::empty(), layers)->Ok_0;
            let last = layers_put(tree, fresh(tree, Seq::empty()), layers, 0, q);
            &&& is_file(d.vault, q) ==> node_at(d.vault, q) == node_at(tree, q) && last is Some
            &&& last is Some ==> node_at(d.tree, q) == last
        }),
{
    lemma_vault_keeps_first_content(tree, layers, q);
    lemma_last_entry_decides(tree, Seq::empty(), layers, q);
    lemma_fresh_kept(tree);
    lemma_layers_keep(tree, fresh(tree, Seq::empty()), layers, 0);
    let d = deploy_spec(tree, Seq::empty(), layers)->Ok_0;
    if is_file(d.vault, q) {
        lemma_recorded_was_put(tree, fresh(tree, Seq::empty()), layers, 0, q);
    }
}

/// No-op deployment: without layers, deployment succeeds, decides no action,
/// records no path and leaves the target and the vault as they are.
pub proof fn lemma_deploy_nothing(tree: Listing, vault: Listing)
    ensures
        deploy_spec(tree, vault, Seq::empty()) == Ok::<Pass, ToryggError>(fresh(tree, vault)),
{
}

/// The path that a removal is aimed at.
pub open spec fn removal_of(step: Step, p: RelPath) -> bool {
    step == Step::RemoveDir(p) || step == Step::RemoveFile(p)
}

/// Removal appends to the plan one removal for each recorded path, the last
/// recorded first.
pub proof fn lemma_remove_back_order(tree: Listing, record: Seq<RelPath>, k: int, plan: Seq<Step>)
    requires
        0 <= k <= record.len(),
        remove_back(tree, record, k, plan) is Ok,
    ensures
        ({
            let out = remove_back(tree, record, k, plan)->Ok_0.1;
            &&& out.len() == plan.len() + k
            &&& forall|i: int| 0 <= i < plan.len() ==> out[i] == plan[i]
            &&& forall|i: int| 0 <= i < k ==> removal_of(#[trigger] out[plan.len() + i], record[k - 1 - i])
        }),
    decreases k,
{
    if k > 0 {
        let p = record[k - 1];
        let step = if node_at(tree, p) == Some(Node::Dir) {
            Step::RemoveDir(p)
        } else {
            Step::RemoveFile(p)
        };
        let plan1 = plan.push(step);
        lemma_remove_back_order(delete_spec(tree, p), record, k - 1, plan1);
        let out = remove_back(tree, record, k, plan)->Ok_0.1;
        assert(out[plan.len() as int] == plan1[plan.len() as int]);
        assert forall|i: int| 0 <= i < k implies removal_of(
            #[trigger] out[plan.len() + i],
            record[k - 1 - i],
        ) by {
            if i > 0 {
                assert(out[plan1.len() + (i - 1)] == out[plan.len() + i]);
            }
        }
        assert forall|i: int| 0 <= i < plan.len() implies out[i] == plan[i] by {
            assert(plan1[i] == plan[i]);
        }
    }
}

/// Return of the vault adds to the end of the plan and changes nothing of
/// what the plan held.
pub proof fn lemma_restore_back_keeps_plan(tree: Listing, vault: Listing, k: int, plan: Seq<Step>)
    requires
        0 <= k <= vault.len(),
        restore_back(tree, vault, k, plan) is Ok,
    ensures
        ({
            let out = restore_back(tree, vault, k, plan)->Ok_0.1;
            &&& out.len() == plan.len() + k
            &&& forall|i: int| 0 <= i < plan.len() ==> out[i] == plan[i]
        }),
    decreases k,
{
    if k > 0 {
        let p = vault[k - 1].0;
        match vault[k - 1].1 {
            Node::Dir => {
                let plan1 = plan.push(Step::RemoveVaultDir(p));
                lemma_restore_back_keeps_plan(tree, vault, k - 1, plan1);
                let out = restore_back(tree, vault, k, plan)->Ok_0.1;
                assert forall|i: int| 0 <= i < plan.len() implies out[i] == plan[i] by {
                    assert(plan1[i] == plan[i]);
                }
            },
            Node::File(c) => {
                let plan1 = plan.push(Step::Restore(p));
                lemma_restore_back_keeps_plan(put_spec(tree, p, Node::File(c)), vault, k - 1, plan1);
                let out = restore_back(tree, vault, k, plan)->Ok_0.1;
                assert forall|i: int| 0 <= i < plan.len() implies out[i] == plan[i] by {
                    assert(plan1[i] == plan[i]);
                }
            },
        }
    }
}

/// Reverse-order undeployment: the plan of an undeployment begins with one
/// removal for each recorded path, in the reverse of the recorded order, so
/// that what was put into a directory is removed before the directory.
pub proof fn lemma_undeploy_reverses_record(tree: Listing, vault: Listing, record: Seq<RelPath>)
    requires
        undeploy_spec(tree, vault, record) is Ok,
    ensures
        ({
            let plan = undeploy_spec(tree, vault, record)->Ok_0.plan;
            &&& plan.len() == record.len() + vault.len()
            &&& forall|i: int|
                0 <= i < record.len() ==> removal_of(#[trigger] plan[i], record[record.len() - 1 - i])
        }),
{
    let n = record.len() as int;
    let removed = remove_back(tree, record, n, Seq::empty());
    lemma_remove_back_order(tree, record, n, Seq::empty());
    let cleared = removed->Ok_0.0;
    let removals = removed->Ok_0.1;
    lemma_restore_back_keeps_plan(cleared, vault, vault.len() as int, removals);
    let plan = undeploy_spec(tree, vault, record)->Ok_0.plan;
    assert forall|i: int| 0 <= i < record.len() implies removal_of(
        #[trigger] plan[i],
        record[record.len() - 1 - i],
    ) by {
        assert(removals[0 + i] == plan[i]);
    }
}

/// In a tree whose entries all stand in directories, whatever lies above an
/// entry is a directory.
pub proof fn lemma_above_is_dir(t: Listing, p: RelPath, q: RelPath)
    requires
        no_dup(t),
        parent_closed(t),
        holds(t, q),
        below(p, q),
        p.len() >= 1,
    ensures
        node_at(t, p) == Some(Node::Dir),
    decreases q.len(),
{
    let i = index_of(t, q);
    assert(0 <= i < t.len() && t[i].0 == q);
    assert(parent_is_dir(t, t[i].0));
    let parent = q.drop_last();
    assert(node_at(t, parent) == Some(Node::Dir));
    if parent.len() == p.len() {
        assert(parent =~= q.take(p.len() as int));
    } else {
        assert(parent.take(p.len() as int) =~= q.take(p.len() as int));
        lemma_above_is_dir(t, p, parent);
    }
}

/// The paths of a tree after a node was put: those it had, and the new one
/// behind them where the path was not there.
pub proof fn lemma_put_paths(t: Listing, p: RelPath, n: Node)
    ensures
        put_spec(t, p, n).len() == t.len() + if holds(t, p) { 0int } else { 1int },
        forall|m: int| 0 <= m < t.len() ==> (#[trigger] put_spec(t, p, n)[m]).0 == t[m].0,
        !holds(t, p) ==> put_spec(t, p, n)[t.len() as int] == (p, n),
{
    if holds(t, p) {
        let k = index_of(t, p);
        assert(0 <= k < t.len() && t[k].0 == p);
    }
}

/// Putting a node where its parent is a directory, and not over a directory,
/// leaves every entry standing in a directory.
pub proof fn lemma_closed_put(t: Listing, p: RelPath, n: Node)
    requires
        no_dup(t),
        parent_closed(t),
        parent_is_dir(t, p),
        node_at(t, p) != Some(Node::Dir),
    ensures
        parent_closed(put_spec(t, p, n)),
{
    let u = put_spec(t, p, n);
    lemma_put_paths(t, p, n);
    assert forall|m: int| 0 <= m < u.len() implies parent_is_dir(u, (#[trigger] u[m]).0) by {
        let e = u[m].0;
        if m < t.len() {
            assert(parent_is_dir(t, t[m].0));
        }
        assert(parent_is_dir(t, e));
        if e.len() > 1 {
            lemma_put(t, p, n, e.drop_last());
        }
    }
}

/// Some path recorded behind position `i` is `q`.
pub open spec fn later(record: Seq<RelPath>, i: int, q: RelPath) -> bool {
    exists|j: int| i < j < record.len() && #[trigger] record[j] == q
}

/// What a pass keeps of its record: every recorded path is in the target,
/// none is recorded twice, and whatever the target holds below a recorded
/// path was recorded after it.
pub open spec fn sound(s: Pass) -> bool {
    &&& no_dup(s.tree)
    &&& parent_closed(s.tree)
    &&& forall|i: int| 0 <= i < s.record.len() ==> holds(s.tree, #[trigger] s.record[i])
    &&& forall|i: int, j: int|
        0 <= i < j < s.record.len() ==> #[trigger] s.record[i] != #[trigger] s.record[j]
    &&& forall|i: int, m: int|
        0 <= i < s.record.len() && 0 <= m < s.tree.len() && below(
            #[trigger] s.record[i],
            (#[trigger] s.tree[m]).0,
        ) ==> later(s.record, i, s.tree[m].0)
}

/// One entry of a layer keeps the record sound.
pub proof fn lemma_entry_sound(orig: Listing, s: Pass, layer: int, src: RelPath, node: Node)
    requires
        sound(s),
        deploy_entry(orig, s, layer, src, node) is Ok,
    ensures
        sound(deploy_entry(orig, s, layer, src, node)->Ok_0),
{
    let n = deploy_entry(orig, s, layer, src, node)->Ok_0;
    let dest = resolve(s.tree, src)->Ok_0;
    if n != s {
        let t = s.tree;
        let u = n.tree;
        assert(u == put_spec(t, dest, node));
        lemma_put(t, dest, node, dest);
        lemma_put_paths(t, dest, node);
        lemma_closed_put(t, dest, node);
        let pushed = n.record.len() > s.record.len();
        assert(pushed ==> n.record == s.record.push(dest));
        assert(!pushed ==> n.record == s.record);
        assert(pushed ==> !s.record.contains(dest)) by {
            if pushed && s.record.contains(dest) {
                let i = choose|i: int| 0 <= i < s.record.len() && s.record[i] == dest;
                assert(holds(t, s.record[i]));
            }
        }
        assert forall|i: int| 0 <= i < n.record.len() implies holds(u, #[trigger] n.record[i]) by {
            let q = n.record[i];
            lemma_put(t, dest, node, q);
            if i < s.record.len() {
                assert(holds(t, s.record[i]));
            }
        }
        assert forall|i: int, j: int| 0 <= i < j < n.record.len() implies #[trigger] n.record[i]
            != #[trigger] n.record[j] by {
            if j < s.record.len() {
                assert(s.record[i] != s.record[j]);
            } else {
                assert(s.record[i] == n.record[i]);
                assert(s.record.contains(s.record[i]));
            }
        }
        assert forall|i: int, m: int|
            0 <= i < n.record.len() && 0 <= m < u.len() && below(
                #[trigger] n.record[i],
                (#[trigger] u[m]).0,
            ) implies later(n.record, i, u[m].0) by {
            let q = u[m].0;
            if i < s.record.len() {
                if m < t.len() {
                    assert(s.record[i] == n.record[i]);
                    assert(below(s.record[i], t[m].0));
                    assert(later(s.record, i, t[m].0));
                    let j = choose|j: int| i < j < s.record.len() && #[trigger] s.record[j] == q;
                    assert(n.record[j] == q);
                } else {
                    assert(q == dest);
                    assert(!holds(t, dest));
                    if !pushed {
                        assert(node is File);
                        assert(s.record.contains(dest));
                        let k = choose|k: int| 0 <= k < s.record.len() && s.record[k] == dest;
                        assert(holds(t, s.record[k]));
                    }
                    assert(n.record[s.record.len() as int] == dest);
                }
            } else {
                assert(n.record[i] == dest);
                assert(holds(u, q)) by {
                    lemma_entry_found(u, m);
                }
                lemma_above_is_dir(u, dest, q);
                if node is File {
                    assert(false);
                } else {
                    assert(m < t.len());
                    assert(holds(t, t[m].0)) by {
                        lemma_entry_found(t, m);
                    }
                    lemma_above_is_dir(t, dest, t[m].0);
                    assert(false);
                }
            }
        }
    }
}

/// The entries of a layer keep the record sound.
pub proof fn lemma_layer_sound(orig: Listing, s: Pass, layer: int, files: Listing, k: int)
    requires
        sound(s),
        run_layer(orig, s, layer, files, k) is Ok,
    ensures
        sound(run_layer(orig, s, layer, files, k)->Ok_0),
    decreases files.len() - k,
{
    if 0 <= k < files.len() {
        lemma_entry_sound(orig, s, layer, files[k].0, files[k].1);
        let next = deploy_entry(orig, s, layer, files[k].0, files[k].1)->Ok_0;
        lemma_layer_sound(orig, next, layer, files, k + 1);
    }
}

/// The layers keep the record sound.
pub proof fn lemma_layers_sound(orig: Listing, s: Pass, layers: Seq<Listing>, j: int)
    requires
        sound(s),
        run_layers(orig, s, layers, j) is Ok,
    ensures
        sound(run_layers(orig, s, layers, j)->Ok_0),
    decreases layers.len() - j,
{
    if 0 <= j < layers.len() {
        lemma_layer_sound(orig, s, j, layers[j], 0);
        let next = run_layer(orig, s, j, layers[j], 0)->Ok_0;
        lemma_layers_sound(orig, next, layers, j + 1);
    }
}

/// Some path recorded at position `k` or behind it is `q`.
pub open spec fn among(record: Seq<RelPath>, k: int, q: RelPath) -> bool {
    exists|j: int| k <= j < record.len() && #[trigger] record[j] == q
}

/// With a sound record, the removal of the recorded paths in reverse never
/// meets a path that is gone or a directory that still has entries. `whole`
/// is the target as deployment left it, `tree` what is left of it once the
/// paths recorded from position `k` on are removed.
pub proof fn lemma_remove_back_succeeds(
    whole: Pass,
    tree: Listing,
    k: int,
    plan: Seq<Step>,
)
    requires
        sound(whole),
        no_dup(tree),
        0 <= k <= whole.record.len(),
        forall|q: RelPath| #[trigger]
            node_at(tree, q) == if among(whole.record, k, q) {
                None
            } else {
                node_at(whole.tree, q)
            },
    ensures
        remove_back(tree, whole.record, k, plan) is Ok,
    decreases k,
{
    let record = whole.record;
    if k > 0 {
        let p = record[k - 1];
        assert(!among(record, k, p)) by {
            if among(record, k, p) {
                let j = choose|j: int| k <= j < record.len() && #[trigger] record[j] == p;
                assert(record[k - 1] != record[j]);
            }
        }
        assert(holds(whole.tree, record[k - 1]));
        assert(node_at(tree, p) == node_at(whole.tree, p));
        assert(node_at(tree, p) is Some);
        if node_at(tree, p) == Some(Node::Dir) {
            assert(!has_child(tree, p)) by {
                if has_child(tree, p) {
                    let m = choose|m: int| 0 <= m < tree.len() && below(p, (#[trigger] tree[m]).0);
                    let q = tree[m].0;
                    lemma_entry_found(tree, m);
                    assert(node_at(tree, q) is Some);
                    assert(!among(record, k, q));
                    assert(holds(whole.tree, q));
                    let w = index_of(whole.tree, q);
                    assert(0 <= w < whole.tree.len() && whole.tree[w].0 == q);
                    assert(below(record[k - 1], whole.tree[w].0));
                    assert(later(record, k - 1, q));
                    let j = choose|j: int| k - 1 < j < record.len() && #[trigger] record[j] == q;
                    assert(among(record, k, q));
                }
            }
        }
        let step = if node_at(tree, p) == Some(Node::Dir) {
            Step::RemoveDir(p)
        } else {
            Step::RemoveFile(p)
        };
        let rest = delete_spec(tree, p);
        lemma_delete(tree, p, p);
        assert forall|q: RelPath| #[trigger]
            node_at(rest, q) == if among(record, k - 1, q) {
                None
            } else {
                node_at(whole.tree, q)
            } by {
            lemma_delete(tree, p, q);
            if among(record, k, q) {
                let j = choose|j: int| k <= j < record.len() && #[trigger] record[j] == q;
                assert(among(record, k - 1, q));
            }
            if q == p {
                assert(among(record, k - 1, q));
            }
            if among(record, k - 1, q) && q != p {
                let j = choose|j: int| k - 1 <= j < record.len() && #[trigger] record[j] == q;
                assert(among(record, k, q));
            }
        }
        lemma_remove_back_succeeds(whole, rest, k - 1, plan.push(step));
    }
}

/// Two trees have their directories at the same paths.
pub open spec fn same_dirs(a: Listing, b: Listing) -> bool {
    forall|q: RelPath|
        #![trigger node_at(a, q)]
        #![trigger node_at(b, q)]
        (node_at(a, q) == Some(Node::Dir)) == (node_at(b, q) == Some(Node::Dir))
}

/// The files of the vault go back without meeting a directory in their place
/// or missing the directory above them, where the target has its directories
/// where `orig` has them and every file of the vault is a file of `orig`.
pub proof fn lemma_restore_back_succeeds(
    orig: Listing,
    tree: Listing,
    vault: Listing,
    k: int,
    plan: Seq<Step>,
)
    requires
        no_dup(tree),
        same_dirs(tree, orig),
        0 <= k <= vault.len(),
        forall|i: int|
            0 <= i < k && (#[trigger] vault[i]).1 is File ==> is_file(orig, vault[i].0)
                && parent_is_dir(orig, vault[i].0),
    ensures
        restore_back(tree, vault, k, plan) is Ok,
    decreases k,
{
    if k > 0 {
        let p = vault[k - 1].0;
        match vault[k - 1].1 {
            Node::Dir => {
                lemma_restore_back_succeeds(
                    orig,
                    tree,
                    vault,
                    k - 1,
                    plan.push(Step::RemoveVaultDir(p)),
                );
            },
            Node::File(c) => {
                assert(is_file(orig, p) && parent_is_dir(orig, p));
                assert(node_at(tree, p) != Some(Node::Dir));
                if p.len() > 1 {
                    assert(node_at(tree, p.drop_last()) == Some(Node::Dir));
                }
                let next = put_spec(tree, p, Node::File(c));
                lemma_put(tree, p, Node::File(c), p);
                assert forall|q: RelPath|
                    #![trigger node_at(next, q)]
                    #![trigger node_at(orig, q)]
                    (node_at(next, q) == Some(Node::Dir)) == (node_at(orig, q) == Some(
                        Node::Dir,
                    )) by {
                    lemma_put(tree, p, Node::File(c), q);
                    assert((node_at(tree, q) == Some(Node::Dir)) == (node_at(orig, q) == Some(
                        Node::Dir,
                    )));
                }
                lemma_restore_back_succeeds(orig, next, vault, k - 1, plan.push(Step::Restore(p)));
            },
        }
    }
}

/// What deployment did can always be undone: after a deployment onto a
/// target with an empty vault, the undeployment of what it recorded succeeds.
pub proof fn lemma_undeploy_succeeds(tree: Listing, layers: Seq<Listing>)
    requires
        no_dup(tree),
        parent_closed(tree),
        deploy_spec(tree, Seq::empty(), layers) is Ok,
    ensures
        ({
            let d = deploy_spec(tree, Seq::empty(), layers)->Ok_0;
            undeploy_spec(d.tree, d.vault, d.record) is Ok
        }),
{
    let start = fresh(tree, Seq::empty());
    let d = deploy_spec(tree, Seq::empty(), layers)->Ok_0;
    lemma_fresh_kept(tree);
    lemma_layers_keep(tree, start, layers, 0);
    assert(sound(start));
    lemma_layers_sound(tree, start, layers, 0);
    let n = d.record.len() as int;
    assert forall|q: RelPath| #[trigger]
        node_at(d.tree, q) == if among(d.record, n, q) {
            None
        } else {
            node_at(d.tree, q)
        } by {}
    lemma_remove_back_succeeds(d, d.tree, n, Seq::empty());
    let removed = remove_back(d.tree, d.record, n, Seq::empty());
    let cleared = removed->Ok_0.0;
    let removals = removed->Ok_0.1;
    assert(d.record.take(n) =~= d.record);
    lemma_remove_back(d.tree, d.record, n, Seq::empty(), Seq::empty());
    assert forall|q: RelPath|
        #![trigger node_at(cleared, q)]
        #![trigger node_at(tree, q)]
        (node_at(cleared, q) == Some(Node::Dir)) == (node_at(tree, q) == Some(Node::Dir)) by {
        lemma_remove_back(d.tree, d.record, n, Seq::empty(), q);
        if d.record.contains(q) {
            if is_file(d.vault, q) {
                assert(node_at(d.vault, q) == node_at(tree, q));
            } else {
                assert(!holds(tree, q));
            }
        } else {
            assert(node_at(d.tree, q) == node_at(tree, q));
        }
    }
    assert forall|i: int| 0 <= i < d.vault.len() && (#[trigger] d.vault[i]).1 is File implies is_file(
        tree,
        d.vault[i].0,
    ) && parent_is_dir(tree, d.vault[i].0) by {
        let p = d.vault[i].0;
        lemma_entry_found(d.vault, i);
        assert(is_file(d.vault, p));
        assert(node_at(d.vault, p) == node_at(tree, p));
        let w = index_of(tree, p);
        assert(0 <= w < tree.len() && tree[w].0 == p);
        assert(parent_is_dir(tree, tree[w].0));
    }
    lemma_restore_back_succeeds(tree, cleared, d.vault, d.vault.len() as int, removals);
}

/// Round trip: a deployment onto a target with an empty vault can be undone,
/// and once it is undone the target holds at every path what it held before
/// the deployment, and nothing else; the vault is empty again and nothing is
/// recorded.
pub proof fn lemma_round_trip(tree: Listing, layers: Seq<Listing>)
    requires
        no_dup(tree),
        parent_closed(tree),
        deploy_spec(tree, Seq::empty(), layers) is Ok,
    ensures
        ({
            let d = deploy_spec(tree, Seq::empty(), layers)->Ok_0;
            let u = undeploy_spec(d.tree, d.vault, d.record);
            &&& u is Ok
            &&& forall|q: RelPath| #[trigger] node_at(u->Ok_0.tree, q) == node_at(tree, q)
            &&& u->Ok_0.vault.len() == 0
            &&& u->Ok_0.record.len() == 0
        }),
{
    lemma_undeploy_succeeds(tree, layers);
    lemma_deploy_undeploy_round_trip(tree, layers);
}

} // verus!
