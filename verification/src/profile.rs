//! A profile: a name and the mods that are enabled in it, in load order.

use vstd::prelude::*;
use crate::applauncher::rendered;
use crate::error::{IoFault, ToryggError};
use crate::existing_directory::{is_directory, ExistingDirectory};
use crate::tree::{holds, parent_is_dir, path_clone, path_eq, put_spec, Node, Tree};

verus! {

/// A named list of enabled mods. The order of the list is the load order.
#[derive(Debug)]
pub struct Profile {
    name: String,
    mods: Option<Vec<String>>,
}

/// What a profile is: its name and its enabled mods.
pub struct ProfileView {
    pub name: Seq<char>,
    pub mods: Option<Seq<Seq<char>>>,
}

impl View for Profile {
    type V = ProfileView;

    closed spec fn view(&self) -> ProfileView {
        ProfileView {
            name: self.name@,
            mods: match self.mods {
                Some(m) => Some(m.deep_view()),
                None => None,
            },
        }
    }
}

/// The first `k` names of `mods` without `name`, in their order.
pub open spec fn without(mods: Seq<Seq<char>>, name: Seq<char>, k: int) -> Seq<Seq<char>>
    decreases k,
{
    if k <= 0 || k > mods.len() {
        Seq::empty()
    } else if mods[k - 1] == name {
        without(mods, name, k - 1)
    } else {
        without(mods, name, k - 1).push(mods[k - 1])
    }
}

/// The enabled mods after `name` was enabled or disabled.
pub open spec fn toggled(mods: Option<Seq<Seq<char>>>, name: Seq<char>, enabled: bool) -> Option<
    Seq<Seq<char>>,
> {
    let list = match mods {
        Some(m) => m,
        None => Seq::empty(),
    };
    if enabled {
        if list.contains(name) {
            Some(list)
        } else {
            Some(list.push(name))
        }
    } else if list.contains(name) {
        let rest = without(list, name, list.len() as int);
        if rest.len() == 0 {
            None
        } else {
            Some(rest)
        }
    } else {
        Some(list)
    }
}

/// Nothing of `without` is the name that was taken out, and every other name stays.
pub proof fn lemma_without(mods: Seq<Seq<char>>, name: Seq<char>, k: int, q: Seq<char>)
    requires
        0 <= k <= mods.len(),
    ensures
        without(mods, name, k).contains(q) == (q != name && mods.take(k).contains(q)),
    decreases k,
{
    if k > 0 {
        lemma_without(mods, name, k - 1, q);
        let prev = without(mods, name, k - 1);
        let head = mods.take(k - 1);
        assert(mods.take(k) =~= head.push(mods[k - 1]));
        if head.contains(q) {
            let i = choose|i: int| 0 <= i < head.len() && head[i] == q;
            assert(mods.take(k)[i] == q);
        }
        if mods.take(k).contains(q) {
            let i = choose|i: int| 0 <= i < k && mods.take(k)[i] == q;
            if i < k - 1 {
                assert(head[i] == q);
            }
        }
        assert(mods.take(k)[k - 1] == mods[k - 1]);
        if mods[k - 1] != name {
            let cur = prev.push(mods[k - 1]);
            assert(cur[prev.len() as int] == mods[k - 1]);
            if prev.contains(q) {
                let i = choose|i: int| 0 <= i < prev.len() && prev[i] == q;
                assert(cur[i] == q);
            }
            if cur.contains(q) {
                let i = choose|i: int| 0 <= i < cur.len() && cur[i] == q;
                if i < prev.len() {
                    assert(prev[i] == q);
                }
            }
        }
    } else {
        assert(mods.take(0) =~= Seq::<Seq<char>>::empty());
    }
}

/// Whether `names` holds `name`.
pub fn contains_name(names: &Vec<String>, name: &String) -> (r: bool)
    ensures
        r == names.deep_view().contains(name@),
{
    let mut i: usize = 0;
    while i < names.len()
        invariant
            0 <= i <= names.len(),
            forall|k: int| 0 <= k < i ==> #[trigger] names.deep_view()[k] != name@,
        decreases names.len() - i,
    {
        if names[i] == *name {
            assert(names.deep_view()[i as int] == name@);
            return true;
        }
        i += 1;
    }
    false
}

impl Profile {
    /// A profile without mods, under a name that no profile in `existing` has.
    pub fn new(profile_name: &str, existing: &Vec<String>) -> (r: Result<Profile, ToryggError>)
        ensures
            existing.deep_view().contains(profile_name@) ==> r is Err && r->Err_0
                == ToryggError::ProfileAlreadyExists,
            !existing.deep_view().contains(profile_name@) ==> r is Ok && r->Ok_0@ == (ProfileView {
                name: profile_name@,
                mods: None,
            }),
    {
        let name = profile_name.to_owned();
        if contains_name(existing, &name) {
            return Err(ToryggError::ProfileAlreadyExists);
        }
        Ok(Profile { name, mods: None })
    }

    /// A profile as it was stored: its name and its enabled mods.
    pub fn from_parts(name: String, mods: Option<Vec<String>>) -> (r: Profile)
        ensures
            r@.name == name@,
            r@.mods == match mods {
                Some(m) => Some(m.deep_view()),
                None => None,
            },
    {
        Profile { name, mods }
    }

    #[must_use]
    pub fn name(&self) -> (r: &str)
        ensures
            r@ == self@.name,
    {
        self.name.as_str()
    }

    /// Enables or disables a mod. A mod that is enabled goes to the end of the
    /// load order unless it is in it; a mod that is disabled leaves it, and a
    /// profile whose last mod leaves has no list any more. Returns whether the
    /// call found something to change, so that the caller knows to store the
    /// profile.
    pub fn set_mod_enabled(&mut self, mod_name: &String, enabled: bool, installed: &Vec<String>) -> (r:
        Result<bool, ToryggError>)
        ensures
            !installed.deep_view().contains(mod_name@) ==> r is Err && r->Err_0 is Other
                && r->Err_0->Other_0@ == "Mod not installed"@ && final(self)@ == old(self)@,
            installed.deep_view().contains(mod_name@) ==> r is Ok && final(self)@.name == old(self)@.name && final(self)@.mods == toggled(old(self)@.mods, mod_name@, enabled) && r->Ok_0
                == (enabled != (old(self)@.mods is Some && old(self)@.mods->0.contains(mod_name@))),
    {
        if !contains_name(installed, mod_name) {
            return Err(ToryggError::Other("Mod not installed".to_owned()));
        }
        let list: Vec<String> = match self.mods.take() {
            Some(m) => m,
            None => Vec::new(),
        };
        let ghost before = list.deep_view();
        assert(old(self)@.mods is None ==> before =~= Seq::<Seq<char>>::empty());
        let present = contains_name(&list, mod_name);
        if enabled {
            let mut list = list;
            if !present {
                list.push(mod_name.clone());
                assert(list.deep_view() =~= before.push(mod_name@));
            }
            self.mods = Some(list);
            Ok(!present)
        } else if present {
            let mut rest: Vec<String> = Vec::new();
            let mut i: usize = 0;
            assert(rest.deep_view() =~= without(before, mod_name@, 0));
            while i < list.len()
                invariant
                    0 <= i <= list.len(),
                    before == list.deep_view(),
                    rest.deep_view() == without(before, mod_name@, i as int),
                decreases list.len() - i,
            {
                let ghost prev = rest.deep_view();
                assert(before[i as int] == list@[i as int]@);
                if list[i] != *mod_name {
                    rest.push(list[i].clone());
                    assert(rest.deep_view() =~= prev.push(before[i as int]));
                }
                i += 1;
            }
            assert(rest.deep_view().len() == rest.len());
            if rest.len() == 0 {
                self.mods = None;
            } else {
                self.mods = Some(rest);
            }
            Ok(true)
        } else {
            self.mods = Some(list);
            Ok(false)
        }
    }

    pub fn enable_mod(&mut self, mod_name: &String, installed: &Vec<String>) -> (r: Result<
        bool,
        ToryggError,
    >)
        ensures
            !installed.deep_view().contains(mod_name@) ==> r is Err && r->Err_0 is Other
                && r->Err_0->Other_0@ == "Mod not installed"@ && final(self)@ == old(self)@,
            installed.deep_view().contains(mod_name@) ==> r is Ok && final(self)@.name == old(self)@.name && final(self)@.mods == toggled(old(self)@.mods, mod_name@, true) && r->Ok_0
                == !(old(self)@.mods is Some && old(self)@.mods->0.contains(mod_name@)),
    {
        self.set_mod_enabled(mod_name, true, installed)
    }

    pub fn disable_mod(&mut self, mod_name: &String, installed: &Vec<String>) -> (r: Result<
        bool,
        ToryggError,
    >)
        ensures
            !installed.deep_view().contains(mod_name@) ==> r is Err && r->Err_0 is Other
                && r->Err_0->Other_0@ == "Mod not installed"@ && final(self)@ == old(self)@,
            installed.deep_view().contains(mod_name@) ==> r is Ok && final(self)@.name == old(self)@.name && final(self)@.mods == toggled(old(self)@.mods, mod_name@, false) && r->Ok_0
                == (old(self)@.mods is Some && old(self)@.mods->0.contains(mod_name@)),
    {
        self.set_mod_enabled(mod_name, false, installed)
    }

    #[must_use]
    pub fn mod_enabled(&self, mod_name: &String) -> (r: bool)
        ensures
            r == (self@.mods is Some && self@.mods->0.contains(mod_name@)),
    {
        match &self.mods {
            Some(mods) => contains_name(mods, mod_name),
            None => false,
        }
    }

    #[must_use]
    pub fn enabled_mods(&self) -> (r: Option<&Vec<String>>)
        ensures
            r is Some == self@.mods is Some,
            r is Some ==> r->0.deep_view() == self@.mods->0,
    {
        self.mods.as_ref()
    }

    /// Whether two profiles have the same name and the same enabled mods in
    /// the same order.
    pub fn same(&self, other: &Profile) -> (r: bool)
        ensures
            r == (self@ == other@),
    {
        if self.name != other.name {
            return false;
        }
        match (&self.mods, &other.mods) {
            (Some(a), Some(b)) => path_eq(a, b),
            (None, None) => true,
            _ => false,
        }
    }

    /// The directory of the mods that the profile draws on: `mods` in the
    /// data directory.
    pub fn mods_dir(&self, data_dir: &Vec<String>) -> (r: Vec<String>)
        ensures
            r.deep_view() == data_dir.deep_view().push("mods"@),
    {
        let mut out = path_clone(data_dir);
        let ghost base = out.deep_view();
        out.push("mods".to_owned());
        assert(out.deep_view() =~= base.push("mods"@));
        out
    }

    /// The profile's directory: the one named after it in the configuration
    /// directory, made if nothing is there. Returns with it whether it was
    /// made, and is then to be created on disk. A file of that name in the way
    /// is an error, and so is a configuration directory that is not there.
    pub fn dir(&self, config_dir: &ExistingDirectory, tree: &mut Tree) -> (r: Result<
        (ExistingDirectory, bool),
        ToryggError,
    >)
        requires
            old(tree).wf(),
        ensures
            final(tree).wf(),
            r is Ok <==> is_directory(old(tree)@, config_dir@.push(self@.name)) || (!holds(
                old(tree)@,
                config_dir@.push(self@.name),
            ) && parent_is_dir(old(tree)@, config_dir@.push(self@.name))),
            r is Ok ==> r->Ok_0.0@ == config_dir@.push(self@.name) && is_directory(
                final(tree)@,
                config_dir@.push(self@.name),
            ) && r->Ok_0.1 == !holds(old(tree)@, config_dir@.push(self@.name)),
            r is Ok && r->Ok_0.1 ==> final(tree)@ == put_spec(
                old(tree)@,
                config_dir@.push(self@.name),
                Node::Dir,
            ),
            !(r is Ok && r->Ok_0.1) ==> final(tree)@ == old(tree)@,
            r is Err ==> if holds(old(tree)@, config_dir@.push(self@.name)) {
                r->Err_0 is NotADirectory && r->Err_0->NotADirectory_0@ == rendered(
                    config_dir@.push(self@.name),
                )
            } else {
                r->Err_0 == ToryggError::IOError(IoFault::NotFound)
            },
    {
        config_dir.maybe_create_child_directory(tree, self.name.as_str())
    }
}

} // verus!
