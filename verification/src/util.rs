//! Case-insensitive matching of a relative path against a directory tree.

use vstd::prelude::*;
use crate::error::{IoFault, ToryggError};
use crate::tree::{below, path_below, path_clone, Listing, Node, RelPath, Tree};

verus! {

/// Whether two names are equal when case is ignored, as `unicase::eq` decides it.
pub uninterp spec fn caseless_eq(a: Seq<char>, b: Seq<char>) -> bool;

/// Every character of the name is an ASCII character.
pub open spec fn plain(s: Seq<char>) -> bool {
    forall|i: int| 0 <= i < s.len() ==> ((#[trigger] s[i]) as int) < 128
}

/// The character without its ASCII case: a capital letter of ASCII as the
/// small letter, any other character as it is.
pub open spec fn small(c: char) -> char {
    if 65 <= (c as int) && (c as int) <= 90 {
        ((c as int) + 32) as char
    } else {
        c
    }
}

/// The names have the same length and differ in the ASCII case of their
/// letters at most.
pub open spec fn same_letters(a: Seq<char>, b: Seq<char>) -> bool {
    a.len() == b.len() && forall|i: int| 0 <= i < a.len() ==> small(#[trigger] a[i]) == small(b[i])
}

/// Calls `unicase::eq`. The result depends on the two names alone. Two names
/// of ASCII characters only are compared with `eq_ignore_ascii_case`; once a
/// name holds another character, the case of both is folded by the Unicode
/// tables and what comes out is compared, of which only this is claimed: a
/// name matches itself, equal names folding to equal sequences.
#[verifier::external_body]
pub(crate) fn names_match(a: &str, b: &str) -> (r: bool)
    ensures
        r == caseless_eq(a@, b@),
        a@ == b@ ==> r,
        plain(a@) && plain(b@) ==> r == same_letters(a@, b@),
{
    unicase::eq(a, b)
}

/// Two names are the same when case is ignored: they are equal, or they are
/// ASCII names that differ in the case of their letters at most, or the
/// comparison says so.
pub open spec fn alike(a: Seq<char>, b: Seq<char>) -> bool {
    a == b || (plain(a) && plain(b) && same_letters(a, b)) || caseless_eq(a, b)
}

/// The entry `e` stands directly in the directory `dir` and its name matches
/// `name` when case is ignored.
pub open spec fn child_match(e: RelPath, dir: RelPath, name: Seq<char>) -> bool {
    e.len() == dir.len() + 1 && below(dir, e) && alike(e.last(), name)
}

/// The first position from `start` on whose entry matches `name` in `dir`.
pub open spec fn first_match_from(t: Listing, dir: RelPath, name: Seq<char>, start: int) -> Option<
    int,
>
    decreases t.len() - start,
{
    if start < 0 || start >= t.len() {
        None
    } else if child_match(t[start].0, dir, name) {
        Some(start)
    } else {
        first_match_from(t, dir, name, start + 1)
    }
}

/// Resolution of the components `rest` once `done` has been settled. `at` is
/// what the tree holds at `done`: `None` once a component was not found, after
/// which the remaining components are taken as they are written.
pub open spec fn resolve_from(t: Listing, done: RelPath, at: Option<Node>, rest: RelPath) -> Result<
    RelPath,
    ToryggError,
>
    decreases rest.len(),
{
    if rest.len() == 0 {
        Ok(done)
    } else {
        match at {
            None => resolve_from(t, done.push(rest[0]), None, rest.skip(1)),
            Some(Node::File(_)) => Err(ToryggError::IOError(IoFault::NotADirectory)),
            Some(Node::Dir) => match first_match_from(t, done, rest[0], 0) {
                Some(i) => resolve_from(t, t[i].0, Some(t[i].1), rest.skip(1)),
                None => resolve_from(t, done.push(rest[0]), None, rest.skip(1)),
            },
        }
    }
}

/// The path to use below the root of `t` for the requested path `relative`.
pub open spec fn resolve(t: Listing, relative: RelPath) -> Result<RelPath, ToryggError> {
    resolve_from(t, Seq::empty(), Some(Node::Dir), relative)
}

/// Every component of `relative` is found in `t` as it is written, before any
/// other entry of the same directory that matches it when case is ignored,
/// and every component but the last is a directory.
pub open spec fn correctly_cased(t: Listing, relative: RelPath) -> bool {
    forall|k: int|
        0 <= k < relative.len() ==> {
            let hit = #[trigger] first_match_from(t, relative.take(k), relative[k], 0);
            &&& hit is Some
            &&& t[hit->0].0 == relative.take(k + 1)
            &&& (k + 1 < relative.len() ==> t[hit->0].1 == Node::Dir)
        }
}

proof fn lemma_resolve_cased(t: Listing, relative: RelPath, k: int)
    requires
        correctly_cased(t, relative),
        0 <= k <= relative.len(),
    ensures
        resolve_from(t, relative.take(k), Some(Node::Dir), relative.skip(k)) == Ok::<
            RelPath,
            ToryggError,
        >(relative),
    decreases relative.len() - k,
{
    let rest = relative.skip(k);
    if k == relative.len() {
        assert(relative.take(k) =~= relative);
    } else {
        assert(rest[0] == relative[k]);
        assert(rest.skip(1) =~= relative.skip(k + 1));
        let hit = first_match_from(t, relative.take(k), relative[k], 0);
        assert(hit is Some);
        let i = hit->0;
        assert(t[i].0 == relative.take(k + 1));
        if k + 1 < relative.len() {
            lemma_resolve_cased(t, relative, k + 1);
            assert(t[i].1 == Node::Dir);
        } else {
            assert(relative.take(k + 1) =~= relative);
            assert(rest.skip(1).len() == 0);
            assert(resolve_from(t, t[i].0, Some(t[i].1), rest.skip(1)) == Ok::<
                RelPath,
                ToryggError,
            >(t[i].0));
        }
        assert(resolve_from(t, relative.take(k), Some(Node::Dir), rest) == resolve_from(
            t,
            t[i].0,
            Some(t[i].1),
            rest.skip(1),
        ));
    }
}

/// The first `k + 1` components of `relative` name an entry of `t`, a
/// directory unless it is the whole path, and no entry listed before it
/// stands in the same directory under a name that matches when case is
/// ignored.
pub open spec fn found_as_spelled(t: Listing, relative: RelPath, k: int) -> bool {
    exists|i: int|
        0 <= i < t.len() && (#[trigger] t[i]).0 == relative.take(k + 1) && (k + 1 < relative.len()
            ==> t[i].1 == Node::Dir) && forall|j: int|
            0 <= j < i ==> !child_match((#[trigger] t[j]).0, relative.take(k), relative[k])
}

/// The path exists in `t` as it is spelled, component by component, and no
/// component has a sibling listed before it that differs from it by case
/// alone.
pub open spec fn as_spelled(t: Listing, relative: RelPath) -> bool {
    forall|k: int| 0 <= k < relative.len() ==> #[trigger] found_as_spelled(t, relative, k)
}

/// A path that exists as it is spelled is correctly cased.
pub proof fn lemma_as_spelled(t: Listing, relative: RelPath)
    requires
        as_spelled(t, relative),
    ensures
        correctly_cased(t, relative),
{
    assert forall|k: int| 0 <= k < relative.len() implies ({
        let hit = #[trigger] first_match_from(t, relative.take(k), relative[k], 0);
        &&& hit is Some
        &&& t[hit->0].0 == relative.take(k + 1)
        &&& (k + 1 < relative.len() ==> t[hit->0].1 == Node::Dir)
    }) by {
        assert(found_as_spelled(t, relative, k));
        let i = choose|i: int|
            0 <= i < t.len() && (#[trigger] t[i]).0 == relative.take(k + 1) && (k + 1
                < relative.len() ==> t[i].1 == Node::Dir) && forall|j: int|
                0 <= j < i ==> !child_match((#[trigger] t[j]).0, relative.take(k), relative[k]);
        let e = relative.take(k + 1);
        assert(e.take(k) =~= relative.take(k));
        assert(e.last() == relative[k]);
        assert(child_match(t[i].0, relative.take(k), relative[k]));
        lemma_first_match(t, relative.take(k), relative[k], 0);
    }
}

/// Idempotent resolution: a path that exists in the tree as it is spelled,
/// with no sibling before any of its components that differs by case alone,
/// resolves to itself.
pub proof fn lemma_resolve_unchanged(t: Listing, relative: RelPath)
    requires
        as_spelled(t, relative),
    ensures
        resolve(t, relative) == Ok::<RelPath, ToryggError>(relative),
{
    lemma_as_spelled(t, relative);
    lemma_resolve_idempotent(t, relative);
}

/// The directories `known` are found in `t` under the spelling `actual`:
/// component by component, the first entry that matches is a directory, and
/// it is the one that `actual` names.
pub open spec fn known_as(t: Listing, known: RelPath, actual: RelPath) -> bool {
    known.len() == actual.len() && forall|k: int|
        0 <= k < known.len() ==> {
            let hit = #[trigger] first_match_from(t, actual.take(k), known[k], 0);
            &&& hit is Some
            &&& t[hit->0].0 == actual.take(k + 1)
            &&& t[hit->0].1 == Node::Dir
        }
}

/// Once a component was not found, the rest is taken as it is written.
pub proof fn lemma_unknown_rest(t: Listing, done: RelPath, rest: RelPath)
    ensures
        resolve_from(t, done, None, rest) == Ok::<RelPath, ToryggError>(done + rest),
    decreases rest.len(),
{
    if rest.len() == 0 {
        assert(done + rest =~= done);
    } else {
        lemma_unknown_rest(t, done.push(rest[0]), rest.skip(1));
        assert(done.push(rest[0]) + rest.skip(1) =~= done + rest);
    }
}

proof fn lemma_known_prefix(t: Listing, known: RelPath, actual: RelPath, rest: RelPath, k: int)
    requires
        known_as(t, known, actual),
        0 <= k <= known.len(),
        rest.len() >= 1,
        first_match_from(t, actual, rest[0], 0) is None,
    ensures
        resolve_from(t, actual.take(k), Some(Node::Dir), known.skip(k) + rest) == Ok::<
            RelPath,
            ToryggError,
        >(actual + rest),
    decreases known.len() - k,
{
    let all = known.skip(k) + rest;
    if k == known.len() {
        assert(all =~= rest);
        assert(actual.take(k) =~= actual);
        lemma_unknown_rest(t, actual.push(rest[0]), rest.skip(1));
        assert(actual.push(rest[0]) + rest.skip(1) =~= actual + rest);
    } else {
        assert(all[0] == known[k]);
        assert(all.skip(1) =~= known.skip(k + 1) + rest);
        let hit = first_match_from(t, actual.take(k), known[k], 0);
        assert(hit is Some);
        lemma_known_prefix(t, known, actual, rest, k + 1);
    }
}

/// Known segments take the casing of the tree, new ones keep their own:
/// where the directories `known` are found under the spelling `actual` and
/// the first component of `rest` matches nothing in the last of them, the
/// path `known` followed by `rest` resolves to `actual` followed by `rest`.
pub proof fn lemma_resolve_known_then_new(t: Listing, known: RelPath, actual: RelPath, rest: RelPath)
    requires
        known_as(t, known, actual),
        rest.len() >= 1,
        first_match_from(t, actual, rest[0], 0) is None,
    ensures
        resolve(t, known + rest) == Ok::<RelPath, ToryggError>(actual + rest),
{
    lemma_known_prefix(t, known, actual, rest, 0);
    assert(actual.take(0) =~= Seq::<Seq<char>>::empty());
    assert(known.skip(0) + rest =~= known + rest);
}

/// Resolving a path that is already written as the tree has it gives the path
/// back unchanged.
pub proof fn lemma_resolve_idempotent(t: Listing, relative: RelPath)
    requires
        correctly_cased(t, relative),
    ensures
        resolve(t, relative) == Ok::<RelPath, ToryggError>(relative),
{
    lemma_resolve_cased(t, relative, 0);
    assert(relative.take(0) =~= Seq::<Seq<char>>::empty());
    assert(relative.skip(0) =~= relative);
}

/// A resolved path has as many components as the requested one.
pub proof fn lemma_resolve_len(t: Listing, done: RelPath, at: Option<Node>, rest: RelPath)
    ensures
        resolve_from(t, done, at, rest) is Ok ==> resolve_from(t, done, at, rest)->Ok_0.len()
            == done.len() + rest.len(),
    decreases rest.len(),
{
    if rest.len() > 0 {
        match at {
            None => lemma_resolve_len(t, done.push(rest[0]), None, rest.skip(1)),
            Some(Node::File(_)) => {},
            Some(Node::Dir) => {
                lemma_first_match(t, done, rest[0], 0);
                match first_match_from(t, done, rest[0], 0) {
                    Some(i) => lemma_resolve_len(t, t[i].0, Some(t[i].1), rest.skip(1)),
                    None => lemma_resolve_len(t, done.push(rest[0]), None, rest.skip(1)),
                }
            },
        }
    }
}

/// What `first_match_from` finds is a matching entry, and nothing before it matches.
pub proof fn lemma_first_match(t: Listing, dir: RelPath, name: Seq<char>, start: int)
    requires
        0 <= start,
    ensures
        match first_match_from(t, dir, name, start) {
            Some(i) => start <= i < t.len() && child_match(t[i].0, dir, name) && forall|j: int|
                start <= j < i ==> !child_match(#[trigger] t[j].0, dir, name),
            None => forall|j: int| start <= j < t.len() ==> !child_match(#[trigger] t[j].0, dir, name),
        },
    decreases t.len() - start,
{
    if start < t.len() && !child_match(t[start].0, dir, name) {
        lemma_first_match(t, dir, name, start + 1);
    }
}

/// Whether the entry `e` stands directly in `dir` under a name that matches `name`.
pub(crate) fn is_child_match(e: &Vec<String>, dir: &Vec<String>, name: &String) -> (r: bool)
    ensures
        r == child_match(e.deep_view(), dir.deep_view(), name@),
{
    assert(e.deep_view().len() == e.len());
    assert(dir.deep_view().len() == dir.len());
    if dir.len() == usize::MAX || e.len() != dir.len() + 1 {
        return false;
    }
    if !path_below(dir, e) {
        return false;
    }
    let last = &e[e.len() - 1];
    assert(e.deep_view().last() == last@);
    names_match(last.as_str(), name.as_str())
}

/// Finds the path to use below the directory `base` of `tree` for `relative`,
/// which is written in some casing of its own; `base` is taken as it is.
/// Returns the whole path, `base` included.
pub fn resolve_below(tree: &Tree, base: &Vec<String>, relative: &Vec<String>) -> (r: Result<
    Vec<String>,
    ToryggError,
>)
    requires
        tree.wf(),
    ensures
        match resolve_from(tree@, base.deep_view(), Some(Node::Dir), relative.deep_view()) {
            Ok(p) => r is Ok && r->Ok_0.deep_view() == p,
            Err(e) => r is Err && r->Err_0 == e,
        },
        r is Ok ==> r->Ok_0.len() == base.len() + relative.len(),
{
    let mut done: Vec<String> = path_clone(base);
    let mut at: Option<Node> = Some(Node::Dir);
    let mut k: usize = 0;
    let ghost rel = relative.deep_view();
    let ghost whole = resolve_from(tree@, base.deep_view(), Some(Node::Dir), rel);
    assert(rel.skip(0) =~= rel);
    assert(done.deep_view().len() == done.len());
    assert(base.deep_view().len() == base.len());
    assert(rel.len() == relative.len());
    proof {
        lemma_resolve_len(tree@, base.deep_view(), Some(Node::Dir), rel);
    }
    while k < relative.len()
        invariant
            tree.wf(),
            rel == relative.deep_view(),
            0 <= k <= relative.len(),
            whole == resolve_from(tree@, base.deep_view(), Some(Node::Dir), rel),
            whole == resolve_from(tree@, done.deep_view(), at, rel.skip(k as int)),
            whole is Ok ==> whole->Ok_0.len() == base.len() + relative.len(),
        decreases relative.len() - k,
    {
        let ghost rest = rel.skip(k as int);
        assert(rest[0] == relative@[k as int]@);
        assert(rest.skip(1) =~= rel.skip(k + 1));
        let ghost before = done.deep_view();
        match at {
            None => {
                done.push(relative[k].clone());
                assert(done.deep_view() =~= before.push(rest[0]));
            },
            Some(Node::File(_)) => {
                return Err(ToryggError::IOError(IoFault::NotADirectory));
            },
            Some(Node::Dir) => {
                let mut i: usize = 0;
                let mut hit: Option<usize> = None;
                while i < tree.len() && hit.is_none()
                    invariant
                        tree.wf(),
                        0 <= i <= tree@.len(),
                        hit is None ==> first_match_from(tree@, before, rest[0], 0)
                            == first_match_from(tree@, before, rest[0], i as int),
                        hit is Some ==> first_match_from(tree@, before, rest[0], 0) == Some(
                            hit->0 as int,
                        ) && hit->0 < tree@.len(),
                        before == done.deep_view(),
                        rest[0] == relative@[k as int]@,
                        k < relative.len(),
                    decreases tree@.len() - i + if hit is None { 1int } else { 0int },
                {
                    if is_child_match(tree.path(i), &done, &relative[k]) {
                        hit = Some(i);
                    } else {
                        i += 1;
                    }
                }
                match hit {
                    Some(j) => {
                        done = path_clone(tree.path(j));
                        at = Some(tree.node(j));
                    },
                    None => {
                        done.push(relative[k].clone());
                        assert(done.deep_view() =~= before.push(rest[0]));
                        at = None;
                    },
                }
            },
        }
        k += 1;
    }
    assert(done.deep_view().len() == done.len());
    Ok(done)
}

/// Finds the path to use below the root of `tree` for `relative`, which is
/// written in some casing of its own. Component by component: while what was
/// settled so far is a directory of the tree, the first of its entries whose
/// name matches the next component without regard to case gives its own
/// spelling; once no entry matches, the rest is taken as written. That a file
/// stands where a directory has to be read is an error.
pub fn find_case_insensitive_path(tree: &Tree, relative: &Vec<String>) -> (r: Result<
    Vec<String>,
    ToryggError,
>)
    requires
        tree.wf(),
    ensures
        match resolve(tree@, relative.deep_view()) {
            Ok(p) => r is Ok && r->Ok_0.deep_view() == p,
            Err(e) => r is Err && r->Err_0 == e,
        },
        r is Ok ==> r->Ok_0.len() == relative.len(),
        as_spelled(tree@, relative.deep_view()) ==> r is Ok && r->Ok_0.deep_view()
            == relative.deep_view(),
{
    let base: Vec<String> = Vec::new();
    assert(base.deep_view() =~= Seq::<Seq<char>>::empty());
    proof {
        if as_spelled(tree@, relative.deep_view()) {
            lemma_resolve_unchanged(tree@, relative.deep_view());
        }
    }
    resolve_below(tree, &base, relative)
}

} // verus!
