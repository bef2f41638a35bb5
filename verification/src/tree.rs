//! A directory tree as a value: the entries found below a root, each with its
//! path relative to the root, in the order in which the directory was listed.

use vstd::prelude::*;

verus! {

/// A relative path: its components, outermost first.
pub type RelPath = Seq<Seq<char>>;

/// What a tree holds, in listing order.
pub type Listing = Seq<(Seq<Seq<char>>, Node)>;

/// What is found at a path. A file carries a token that stands for its
/// content: two files hold the same bytes when their tokens are equal.
#[derive(Clone, Copy, Debug, PartialEq, Eq, Structural)]
pub enum Node {
    Dir,
    File(u64),
}

/// Some entry of `t` has the path `p`.
pub open spec fn holds(t: Listing, p: RelPath) -> bool {
    exists|i: int| 0 <= i < t.len() && (#[trigger] t[i]).0 == p
}

/// The position of an entry with path `p`.
pub open spec fn index_of(t: Listing, p: RelPath) -> int {
    choose|i: int| 0 <= i < t.len() && (#[trigger] t[i]).0 == p
}

/// What `t` holds at `p`, if anything.
pub open spec fn node_at(t: Listing, p: RelPath) -> Option<Node> {
    if holds(t, p) {
        Some(t[index_of(t, p)].1)
    } else {
        None
    }
}

/// No path occurs twice.
pub open spec fn no_dup(t: Listing) -> bool {
    forall|i: int, j: int| 0 <= i < j < t.len() ==> (#[trigger] t[i]).0 != (#[trigger] t[j]).0
}

/// `t` holds a file at `p`.
pub open spec fn is_file(t: Listing, p: RelPath) -> bool {
    node_at(t, p) is Some && node_at(t, p)->0 is File
}

/// `p` lies strictly below `dir`.
pub open spec fn below(dir: RelPath, p: RelPath) -> bool {
    dir.len() < p.len() && p.take(dir.len() as int) == dir
}

/// Some entry of `t` lies strictly below `dir`.
pub open spec fn has_child(t: Listing, dir: RelPath) -> bool {
    exists|i: int| 0 <= i < t.len() && below(dir, (#[trigger] t[i]).0)
}

/// The directory that is to hold `p` exists: `p` names an entry of the root, or
/// its parent is a directory of `t`.
pub open spec fn parent_is_dir(t: Listing, p: RelPath) -> bool {
    p.len() >= 1 && (p.len() == 1 || node_at(t, p.drop_last()) == Some(Node::Dir))
}

/// Every entry stands in a directory of the tree or directly in its root, as
/// the entries of a directory on disk do.
pub open spec fn parent_closed(t: Listing) -> bool {
    forall|i: int| 0 <= i < t.len() ==> parent_is_dir(t, (#[trigger] t[i]).0)
}

/// `t` with `n` at `p`: in place where `p` is present, at the end where it is not.
pub open spec fn put_spec(t: Listing, p: RelPath, n: Node) -> Listing {
    if holds(t, p) {
        t.update(index_of(t, p), (p, n))
    } else {
        t.push((p, n))
    }
}

/// `t` without the entry at `p`.
pub open spec fn delete_spec(t: Listing, p: RelPath) -> Listing {
    if holds(t, p) {
        t.remove(index_of(t, p))
    } else {
        t
    }
}

/// In a listing without repeated paths, an entry is found where it stands.
pub proof fn lemma_entry_found(t: Listing, i: int)
    requires
        no_dup(t),
        0 <= i < t.len(),
    ensures
        holds(t, t[i].0),
        index_of(t, t[i].0) == i,
        node_at(t, t[i].0) == Some(t[i].1),
{
    let p = t[i].0;
    assert(holds(t, p));
    let k = index_of(t, p);
    assert(0 <= k < t.len() && t[k].0 == p);
    if k < i {
        assert(t[k].0 != t[i].0);
    } else if i < k {
        assert(t[i].0 != t[k].0);
    }
}

/// Putting a node at `p` changes what is found at `p` and nothing else.
pub proof fn lemma_put(t: Listing, p: RelPath, n: Node, q: RelPath)
    requires
        no_dup(t),
    ensures
        no_dup(put_spec(t, p, n)),
        node_at(put_spec(t, p, n), q) == if q == p { Some(n) } else { node_at(t, q) },
{
    let u = put_spec(t, p, n);
    if holds(t, p) {
        let k = index_of(t, p);
        assert(0 <= k < t.len() && t[k].0 == p);
        assert forall|i: int| 0 <= i < t.len() implies (#[trigger] u[i]).0 == t[i].0 by {}
        assert(no_dup(u)) by {
            assert forall|i: int, j: int| 0 <= i < j < u.len() implies (#[trigger] u[i]).0 != (
            #[trigger] u[j]).0 by {
                assert(t[i].0 != t[j].0);
            }
        }
        if holds(t, q) {
            let m = index_of(t, q);
            assert(0 <= m < t.len() && t[m].0 == q);
            lemma_entry_found(t, m);
            assert(u[m].0 == q);
            lemma_entry_found(u, m);
            if q == p {
                lemma_entry_found(t, k);
            }
        } else {
            if holds(u, q) {
                let m = index_of(u, q);
                assert(0 <= m < u.len() && u[m].0 == q);
                assert(t[m].0 == q);
                assert(false);
            }
        }
    } else {
        assert(no_dup(u)) by {
            assert forall|i: int, j: int| 0 <= i < j < u.len() implies (#[trigger] u[i]).0 != (
            #[trigger] u[j]).0 by {
                if j < t.len() {
                    assert(t[i].0 != t[j].0);
                } else {
                    assert(u[i] == t[i]);
                    assert(u[j].0 == p);
                }
            }
        }
        let last = t.len() as int;
        assert(u[last] == (p, n));
        lemma_entry_found(u, last);
        if q != p {
            if holds(t, q) {
                let m = index_of(t, q);
                assert(0 <= m < t.len() && t[m].0 == q);
                lemma_entry_found(t, m);
                assert(u[m] == t[m]);
                lemma_entry_found(u, m);
            } else {
                if holds(u, q) {
                    let m = index_of(u, q);
                    assert(0 <= m < u.len() && u[m].0 == q);
                    assert(m < t.len());
                    assert(t[m].0 == q);
                    assert(false);
                }
            }
        }
    }
}

/// Deleting the entry at `p` changes what is found at `p` and nothing else.
pub proof fn lemma_delete(t: Listing, p: RelPath, q: RelPath)
    requires
        no_dup(t),
    ensures
        no_dup(delete_spec(t, p)),
        node_at(delete_spec(t, p), q) == if q == p { None } else { node_at(t, q) },
{
    let u = delete_spec(t, p);
    if holds(t, p) {
        let k = index_of(t, p);
        assert(0 <= k < t.len() && t[k].0 == p);
        assert forall|i: int| 0 <= i < u.len() implies #[trigger] u[i] == t[if i < k { i } else { i + 1 }] by {}
        assert(no_dup(u)) by {
            assert forall|i: int, j: int| 0 <= i < j < u.len() implies (#[trigger] u[i]).0 != (
            #[trigger] u[j]).0 by {
                let a = if i < k { i } else { i + 1 };
                let b = if j < k { j } else { j + 1 };
                assert(t[a].0 != t[b].0);
            }
        }
        if holds(u, q) {
            let m = index_of(u, q);
            assert(0 <= m < u.len() && u[m].0 == q);
            let a = if m < k { m } else { m + 1 };
            assert(t[a].0 == q);
            lemma_entry_found(t, a);
            lemma_entry_found(u, m);
            lemma_entry_found(t, k);
        } else {
            if q != p && holds(t, q) {
                let a = index_of(t, q);
                assert(0 <= a < t.len() && t[a].0 == q);
                assert(a != k);
                let m = if a < k { a } else { a - 1 };
                assert(u[m].0 == q);
                assert(false);
            }
        }
    }
}

/// A directory tree held as a value.
pub struct Tree {
    paths: Vec<Vec<String>>,
    nodes: Vec<Node>,
}

impl View for Tree {
    type V = Seq<(Seq<Seq<char>>, Node)>;

    closed spec fn view(&self) -> Seq<(Seq<Seq<char>>, Node)> {
        Seq::new(self.paths@.len(), |i: int| (self.paths@[i].deep_view(), self.nodes@[i]))
    }
}

/// Whether two paths have the same components.
pub fn path_eq(a: &Vec<String>, b: &Vec<String>) -> (r: bool)
    ensures
        r == (a.deep_view() == b.deep_view()),
{
    if a.len() != b.len() {
        assert(a.deep_view().len() != b.deep_view().len());
        return false;
    }
    let mut i: usize = 0;
    while i < a.len()
        invariant
            a.len() == b.len(),
            0 <= i <= a.len(),
            forall|k: int| 0 <= k < i ==> a@[k]@ == b@[k]@,
        decreases a.len() - i,
    {
        if a[i] != b[i] {
            assert(a.deep_view()[i as int] == a@[i as int]@);
            assert(b.deep_view()[i as int] == b@[i as int]@);
            return false;
        }
        i += 1;
    }
    assert(a.deep_view() =~= b.deep_view());
    true
}

/// A copy of a path.
pub fn path_clone(a: &Vec<String>) -> (r: Vec<String>)
    ensures
        r.deep_view() == a.deep_view(),
{
    let mut out: Vec<String> = Vec::new();
    let mut i: usize = 0;
    while i < a.len()
        invariant
            0 <= i <= a.len(),
            out.len() == i,
            forall|k: int| 0 <= k < i ==> out@[k]@ == a@[k]@,
        decreases a.len() - i,
    {
        out.push(a[i].clone());
        i += 1;
    }
    assert(out.deep_view() =~= a.deep_view());
    out
}

/// Whether `p` lies strictly below `dir`.
pub fn path_below(dir: &Vec<String>, p: &Vec<String>) -> (r: bool)
    ensures
        r == below(dir.deep_view(), p.deep_view()),
{
    if dir.len() >= p.len() {
        return false;
    }
    let mut i: usize = 0;
    while i < dir.len()
        invariant
            dir.len() < p.len(),
            0 <= i <= dir.len(),
            forall|k: int| 0 <= k < i ==> dir@[k]@ == p@[k]@,
        decreases dir.len() - i,
    {
        if dir[i] != p[i] {
            assert(p.deep_view().take(dir.len() as int)[i as int] == p@[i as int]@);
            assert(dir.deep_view()[i as int] == dir@[i as int]@);
            return false;
        }
        i += 1;
    }
    assert(p.deep_view().take(dir.len() as int) =~= dir.deep_view());
    true
}

impl Tree {
    /// The lengths agree and no path occurs twice.
    pub closed spec fn wf(&self) -> bool {
        self.paths@.len() == self.nodes@.len() && no_dup(self@)
    }

    /// A well-formed tree lists no path twice.
    pub proof fn lemma_wf(&self)
        requires
            self.wf(),
        ensures
            no_dup(self@),
    {
    }

    /// A tree without entries.
    pub fn new() -> (r: Tree)
        ensures
            r.wf(),
            r@ == Seq::<(Seq<Seq<char>>, Node)>::empty(),
    {
        let r = Tree { paths: Vec::new(), nodes: Vec::new() };
        assert(r@ =~= Seq::<(Seq<Seq<char>>, Node)>::empty());
        r
    }

    /// A second tree with the same entries in the same order.
    pub fn snapshot(&self) -> (r: Tree)
        requires
            self.wf(),
        ensures
            r.wf(),
            r@ == self@,
    {
        let mut out = Tree { paths: Vec::new(), nodes: Vec::new() };
        let mut i: usize = 0;
        while i < self.paths.len()
            invariant
                self.wf(),
                0 <= i <= self.paths@.len(),
                out.paths@.len() == i,
                out.nodes@.len() == i,
                forall|k: int|
                    0 <= k < i ==> (#[trigger] out.paths@[k]).deep_view()
                        == self.paths@[k].deep_view(),
                forall|k: int| 0 <= k < i ==> #[trigger] out.nodes@[k] == self.nodes@[k],
            decreases self.paths@.len() - i,
        {
            out.paths.push(path_clone(&self.paths[i]));
            out.nodes.push(self.nodes[i]);
            i += 1;
        }
        assert(out@ =~= self@);
        out
    }

    /// The number of entries.
    pub fn len(&self) -> (r: usize)
        requires
            self.wf(),
        ensures
            r == self@.len(),
    {
        self.paths.len()
    }

    /// The path of the entry at position `i`.
    pub fn path(&self, i: usize) -> (r: &Vec<String>)
        requires
            self.wf(),
            i < self@.len(),
        ensures
            r.deep_view() == self@[i as int].0,
    {
        &self.paths[i]
    }

    /// The node of the entry at position `i`.
    pub fn node(&self, i: usize) -> (r: Node)
        requires
            self.wf(),
            i < self@.len(),
        ensures
            r == self@[i as int].1,
    {
        self.nodes[i]
    }

    /// The position of the entry at `p`.
    pub fn find(&self, p: &Vec<String>) -> (r: Option<usize>)
        requires
            self.wf(),
        ensures
            r is Some == holds(self@, p.deep_view()),
            r is Some ==> r->0 == index_of(self@, p.deep_view()),
    {
        let mut i: usize = 0;
        while i < self.paths.len()
            invariant
                self.wf(),
                0 <= i <= self.paths@.len(),
                forall|k: int| 0 <= k < i ==> (#[trigger] self@[k]).0 != p.deep_view(),
            decreases self.paths@.len() - i,
        {
            if path_eq(&self.paths[i], p) {
                proof {
                    lemma_entry_found(self@, i as int);
                }
                return Some(i);
            }
            i += 1;
        }
        None
    }

    /// What the tree holds at `p`.
    pub fn lookup(&self, p: &Vec<String>) -> (r: Option<Node>)
        requires
            self.wf(),
        ensures
            r == node_at(self@, p.deep_view()),
    {
        match self.find(p) {
            Some(i) => Some(self.nodes[i]),
            None => None,
        }
    }

    /// Whether the tree holds a file at `p`.
    pub fn holds_file(&self, p: &Vec<String>) -> (r: bool)
        requires
            self.wf(),
        ensures
            r == is_file(self@, p.deep_view()),
    {
        match self.lookup(p) {
            Some(Node::File(_)) => true,
            _ => false,
        }
    }

    /// Puts `n` at `p`: over what is there, or as a new last entry.
    pub fn put(&mut self, p: &Vec<String>, n: Node)
        requires
            old(self).wf(),
        ensures
            final(self).wf(),
            final(self)@ == put_spec(old(self)@, p.deep_view(), n),
    {
        proof {
            lemma_put(self@, p.deep_view(), n, p.deep_view());
        }
        match self.find(p) {
            Some(i) => {
                self.nodes.set(i, n);
                assert(self@ =~= put_spec(old(self)@, p.deep_view(), n));
            },
            None => {
                self.paths.push(path_clone(p));
                self.nodes.push(n);
                assert(self@ =~= put_spec(old(self)@, p.deep_view(), n));
            },
        }
    }

    /// Takes the entry at `p` out, if there is one.
    pub fn delete(&mut self, p: &Vec<String>)
        requires
            old(self).wf(),
        ensures
            final(self).wf(),
            final(self)@ == delete_spec(old(self)@, p.deep_view()),
    {
        proof {
            lemma_delete(self@, p.deep_view(), p.deep_view());
        }
        match self.find(p) {
            Some(i) => {
                self.paths.remove(i);
                self.nodes.remove(i);
                assert(self@ =~= delete_spec(old(self)@, p.deep_view()));
            },
            None => {},
        }
    }

    /// Whether any entry lies strictly below `dir`.
    pub fn any_below(&self, dir: &Vec<String>) -> (r: bool)
        requires
            self.wf(),
        ensures
            r == has_child(self@, dir.deep_view()),
    {
        let mut i: usize = 0;
        while i < self.paths.len()
            invariant
                self.wf(),
                0 <= i <= self.paths@.len(),
                forall|k: int| 0 <= k < i ==> !below(dir.deep_view(), (#[trigger] self@[k]).0),
            decreases self.paths@.len() - i,
        {
            if path_below(dir, &self.paths[i]) {
                assert(below(dir.deep_view(), self@[i as int].0));
                return true;
            }
            i += 1;
        }
        false
    }

    /// Whether every entry stands in a directory of the tree or directly in
    /// its root.
    pub fn is_closed(&self) -> (r: bool)
        requires
            self.wf(),
        ensures
            r == parent_closed(self@),
    {
        let mut i: usize = 0;
        while i < self.paths.len()
            invariant
                self.wf(),
                0 <= i <= self.paths@.len(),
                forall|k: int| 0 <= k < i ==> parent_is_dir(self@, (#[trigger] self@[k]).0),
            decreases self.paths@.len() - i,
        {
            if !self.parent_exists(&self.paths[i]) {
                assert(!parent_is_dir(self@, self@[i as int].0));
                return false;
            }
            i += 1;
        }
        true
    }

    /// Whether the directory that is to hold `p` exists.
    pub fn parent_exists(&self, p: &Vec<String>) -> (r: bool)
        requires
            self.wf(),
        ensures
            r == parent_is_dir(self@, p.deep_view()),
    {
        if p.len() == 0 {
            return false;
        }
        if p.len() == 1 {
            return true;
        }
        let mut parent = path_clone(p);
        parent.pop();
        assert(parent.deep_view() =~= p.deep_view().drop_last());
        match self.lookup(&parent) {
            Some(Node::Dir) => true,
            _ => false,
        }
    }
}

} // verus!
