//! A path that was found to be a directory.

use vstd::prelude::*;
use crate::applauncher::{render, rendered};
use crate::error::{IoFault, ToryggError};
use crate::tree::{holds, node_at, parent_is_dir, path_clone, put_spec, Listing, Node, RelPath, Tree};

verus! {

/// A path at which a tree held a directory when the value was made.
#[derive(Debug)]
pub struct ExistingDirectory {
    path: Vec<String>,
}

/// `t` holds a directory at `p`. The root, the path without components, is one.
pub open spec fn is_directory(t: Listing, p: RelPath) -> bool {
    p.len() == 0 || node_at(t, p) == Some(Node::Dir)
}

impl View for ExistingDirectory {
    type V = Seq<Seq<char>>;

    closed spec fn view(&self) -> Seq<Seq<char>> {
        self.path.deep_view()
    }
}

impl ExistingDirectory {
    /// The directory at `path`, if `tree` holds one there. A file there and
    /// nothing there are different errors.
    pub fn try_from_path(tree: &Tree, path: Vec<String>) -> (r: Result<Self, ToryggError>)
        requires
            tree.wf(),
        ensures
            is_directory(tree@, path.deep_view()) ==> r is Ok && r->Ok_0@ == path.deep_view(),
            !is_directory(tree@, path.deep_view()) && holds(tree@, path.deep_view()) ==> r is Err
                && r->Err_0 is NotADirectory && r->Err_0->NotADirectory_0@ == rendered(
                path.deep_view(),
            ),
            !is_directory(tree@, path.deep_view()) && !holds(tree@, path.deep_view()) ==> r is Err
                && r->Err_0 is DirectoryNotFound && r->Err_0->DirectoryNotFound_0@ == rendered(
                path.deep_view(),
            ),
    {
        assert(path.deep_view().len() == path.len());
        if path.len() == 0 {
            return Ok(Self { path });
        }
        match tree.lookup(&path) {
            Some(Node::Dir) => Ok(Self { path }),
            Some(Node::File(_)) => Err(ToryggError::NotADirectory(render(&path))),
            None => Err(ToryggError::DirectoryNotFound(render(&path))),
        }
    }

    /// The directory at `path`, made if nothing is there. Returns with it
    /// whether it was made, and is then to be created on disk.
    pub fn maybe_create(tree: &mut Tree, path: Vec<String>) -> (r: Result<(Self, bool), ToryggError>)
        requires
            old(tree).wf(),
        ensures
            final(tree).wf(),
            is_directory(old(tree)@, path.deep_view()) ==> r is Ok && r->Ok_0.0@ == path.deep_view()
                && !r->Ok_0.1 && final(tree)@ == old(tree)@,
            !is_directory(old(tree)@, path.deep_view()) && holds(old(tree)@, path.deep_view())
                ==> r is Err && r->Err_0 is NotADirectory && r->Err_0->NotADirectory_0@ == rendered(
                path.deep_view(),
            ) && final(tree)@ == old(tree)@,
            !holds(old(tree)@, path.deep_view()) && path.len() > 0 && !parent_is_dir(
                old(tree)@,
                path.deep_view(),
            ) ==> r is Err && r->Err_0 == ToryggError::IOError(IoFault::NotFound) && final(tree)@
                == old(tree)@,
            !holds(old(tree)@, path.deep_view()) && parent_is_dir(old(tree)@, path.deep_view())
                ==> r is Ok && r->Ok_0.0@ == path.deep_view() && r->Ok_0.1 && final(tree)@
                == put_spec(old(tree)@, path.deep_view(), Node::Dir),
    {
        assert(path.deep_view().len() == path.len());
        if path.len() > 0 && tree.find(&path).is_none() {
            if !tree.parent_exists(&path) {
                return Err(ToryggError::IOError(IoFault::NotFound));
            }
            tree.put(&path, Node::Dir);
            return Ok((Self { path }, true));
        }
        match Self::try_from_path(tree, path) {
            Ok(dir) => Ok((dir, false)),
            Err(e) => Err(e),
        }
    }

    /// The directory `name` in this one, if `tree` holds it.
    pub fn existing_child_directory(&self, tree: &Tree, name: &str) -> (r: Result<Self, ToryggError>)
        requires
            tree.wf(),
        ensures
            is_directory(tree@, self@.push(name@)) <==> r is Ok,
            r is Ok ==> r->Ok_0@ == self@.push(name@),
            r is Err ==> if holds(tree@, self@.push(name@)) {
                r->Err_0 is NotADirectory && r->Err_0->NotADirectory_0@ == rendered(
                    self@.push(name@),
                )
            } else {
                r->Err_0 is DirectoryNotFound && r->Err_0->DirectoryNotFound_0@ == rendered(
                    self@.push(name@),
                )
            },
    {
        let mut path = path_clone(&self.path);
        let ghost base = path.deep_view();
        path.push(name.to_owned());
        assert(path.deep_view() =~= base.push(name@));
        Self::try_from_path(tree, path)
    }

    /// The directory `name` in this one, made if nothing is there.
    pub fn maybe_create_child_directory(&self, tree: &mut Tree, name: &str) -> (r: Result<
        (Self, bool),
        ToryggError,
    >)
        requires
            old(tree).wf(),
        ensures
            final(tree).wf(),
            r is Ok ==> r->Ok_0.0@ == self@.push(name@) && is_directory(final(tree)@, self@.push(name@)),
            r is Ok <==> is_directory(old(tree)@, self@.push(name@)) || (!holds(
                old(tree)@,
                self@.push(name@),
            ) && parent_is_dir(old(tree)@, self@.push(name@))),
            r is Ok && r->Ok_0.1 ==> final(tree)@ == put_spec(
                old(tree)@,
                self@.push(name@),
                Node::Dir,
            ),
            !(r is Ok && r->Ok_0.1) ==> final(tree)@ == old(tree)@,
            r is Ok ==> r->Ok_0.1 == !holds(old(tree)@, self@.push(name@)),
            r is Err ==> if holds(old(tree)@, self@.push(name@)) {
                r->Err_0 is NotADirectory && r->Err_0->NotADirectory_0@ == rendered(
                    self@.push(name@),
                )
            } else {
                r->Err_0 == ToryggError::IOError(IoFault::NotFound)
            },
    {
        let mut path = path_clone(&self.path);
        let ghost base = path.deep_view();
        path.push(name.to_owned());
        assert(path.deep_view() =~= base.push(name@));
        proof {
            tree.lemma_wf();
            crate::tree::lemma_put(tree@, path.deep_view(), Node::Dir, path.deep_view());
        }
        Self::maybe_create(tree, path)
    }

    /// The path of the directory.
    pub fn path(&self) -> (r: &Vec<String>)
        ensures
            r.deep_view() == self@,
    {
        &self.path
    }
}

} // verus!
