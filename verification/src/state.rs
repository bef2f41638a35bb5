//! The persistent state: the profile in use and the record of what the last
//! deployment put into the target.

use vstd::prelude::*;
use crate::deploy::{
    deploy_layers, deploy_spec, layer_files, layer_names, layers_are, layers_wf, undeploy_record,
    undeploy_spec, Deployment, ModLayer,
};
use crate::error::ToryggError;
use crate::modmanager::{
    create_mod, install_all_spec, install_mod, installed, installed_mods, mod_root_from,
    uninstall_mod, Installation,
};
use crate::profile::{toggled, Profile, ProfileView};
use crate::tree::{node_at, path_clone, put_spec, Node, RelPath, Tree};
use crate::util::first_match_from;

verus! {

/// The profile in use and the deployment record: the relative paths that the
/// last deployment created or overwrote, in the order in which it first touched
/// them. A record is there exactly while the profile is deployed.
#[derive(Debug)]
pub struct ToryggState {
    profile: Profile,
    deployed_files: Option<Vec<Vec<String>>>,
}

/// A copy of a record.
pub fn record_clone(record: &Vec<Vec<String>>) -> (r: Vec<Vec<String>>)
    ensures
        r.deep_view() == record.deep_view(),
{
    let mut out: Vec<Vec<String>> = Vec::new();
    let mut i: usize = 0;
    while i < record.len()
        invariant
            0 <= i <= record.len(),
            out.len() == i,
            forall|k: int| 0 <= k < i ==> (#[trigger] out@[k]).deep_view() == record@[k].deep_view(),
        decreases record.len() - i,
    {
        out.push(path_clone(&record[i]));
        i += 1;
    }
    assert(out.deep_view() =~= record.deep_view());
    out
}

impl ToryggState {
    /// The deployment record, if the profile is deployed.
    pub closed spec fn record(&self) -> Option<Seq<RelPath>> {
        match self.deployed_files {
            Some(r) => Some(r.deep_view()),
            None => None,
        }
    }

    /// The profile in use.
    pub closed spec fn current(&self) -> Profile {
        self.profile
    }

    /// A state that uses `profile` and has nothing deployed.
    #[must_use]
    pub fn new(profile: Profile) -> (r: ToryggState)
        ensures
            r.current() == profile,
            r.record() is None,
    {
        ToryggState { profile, deployed_files: None }
    }

    /// A state as it was stored.
    pub fn from_parts(profile: Profile, deployed_files: Option<Vec<Vec<String>>>) -> (r: ToryggState)
        ensures
            r.current() == profile,
            r.record() == match deployed_files {
                Some(d) => Some(d.deep_view()),
                None => None,
            },
    {
        ToryggState { profile, deployed_files }
    }

    /// The stored state where one could be read, a new one with `fallback` as
    /// its profile where none could.
    #[must_use]
    pub fn read_or_new(stored: Option<ToryggState>, fallback: Profile) -> (r: ToryggState)
        ensures
            stored is Some ==> r == stored->0,
            stored is None ==> r.current() == fallback && r.record() is None,
    {
        match stored {
            Some(s) => s,
            None => ToryggState::new(fallback),
        }
    }

    /// The installed mods, which `mods` lists.
    pub fn mods(mods: &Tree) -> (r: Vec<String>)
        requires
            mods.wf(),
        ensures
            r.deep_view() == installed(mods@, mods@.len() as int),
    {
        installed_mods(mods)
    }

    /// Decides how to install the mod `name` from its unpacked archive.
    pub fn install_mod(archive_stem: &str, name: &String, extracted: &Tree, mods: &mut Tree) -> (r:
        Result<Installation, ToryggError>)
        requires
            extracted.wf(),
            old(mods).wf(),
        ensures
            final(mods).wf(),
            ({
                let root = mod_root_from(
                    extracted@,
                    Seq::empty(),
                    archive_stem@,
                    extracted@.len() as nat,
                );
                if node_at(old(mods)@, seq![name@]) == Some(Node::Dir) {
                    r is Err && r->Err_0 == ToryggError::ModAlreadyExists && final(mods)@ == old(mods)@
                } else {
                    match first_match_from(extracted@, root, "fomod"@, 0) {
                        Some(i) => r is Ok && final(mods)@ == old(mods)@ && match r->Ok_0 {
                            Installation::Scripted { mod_root, fomod_dir } => mod_root.deep_view()
                                == root && fomod_dir.deep_view() == extracted@[i].0,
                            Installation::Whole(_) => false,
                        },
                        None => match install_all_spec(extracted@, root, name@, old(mods)@) {
                            Ok(s) => r is Ok && final(mods)@ == s.mods && match r->Ok_0 {
                                Installation::Scripted { .. } => false,
                                Installation::Whole(plan) => plan.deep_view() == s.plan,
                            },
                            Err(e) => r is Err && r->Err_0 == e,
                        },
                    }
                }
            }),
    {
        install_mod(archive_stem, name, extracted, mods)
    }

    /// Disables the mod in every profile, before its directory is removed.
    pub fn uninstall_mod(name: &String, profiles: Vec<Profile>, installed: &Vec<String>) -> (r:
        Result<Vec<Profile>, ToryggError>)
        ensures
            profiles.len() > 0 && !installed.deep_view().contains(name@) ==> r is Err && r->Err_0 is Other,
            profiles.len() == 0 || installed.deep_view().contains(name@) ==> r is Ok && r->Ok_0.len()
                == profiles.len() && forall|i: int|
                0 <= i < profiles.len() ==> (#[trigger] r->Ok_0[i])@ == (ProfileView {
                    name: profiles[i]@.name,
                    mods: toggled(profiles[i]@.mods, name@, false),
                }),
    {
        uninstall_mod(name, profiles, installed)
    }

    /// Makes a new, empty mod.
    pub fn create_mod(mod_name: &String, mods: &mut Tree) -> (r: Result<(), ToryggError>)
        requires
            old(mods).wf(),
        ensures
            final(mods).wf(),
            match node_at(old(mods)@, seq![mod_name@]) {
                Some(Node::Dir) => r is Err && r->Err_0 == ToryggError::ModAlreadyExists && final(mods)@
                    == old(mods)@,
                Some(Node::File(_)) => r is Err && r->Err_0 is NotADirectory
                    && r->Err_0->NotADirectory_0@ == mod_name@ && final(mods)@ == old(mods)@,
                None => r is Ok && final(mods)@ == put_spec(old(mods)@, seq![mod_name@], Node::Dir),
            },
    {
        create_mod(mod_name, mods)
    }

    /// A new profile without mods, under a name that no profile in
    /// `existing` has.
    pub fn create_profile(name: &str, existing: &Vec<String>) -> (r: Result<Profile, ToryggError>)
        ensures
            existing.deep_view().contains(name@) ==> r is Err && r->Err_0
                == ToryggError::ProfileAlreadyExists,
            !existing.deep_view().contains(name@) ==> r is Ok && r->Ok_0@ == (ProfileView {
                name: name@,
                mods: None,
            }),
    {
        Profile::new(name, existing)
    }

    pub fn deployed(&self) -> (r: bool)
        ensures
            r == self.record() is Some,
    {
        self.deployed_files.is_some()
    }

    /// The record, for storing it.
    pub fn deployed_files(&self) -> (r: Option<&Vec<Vec<String>>>)
        ensures
            r is Some == self.record() is Some,
            r is Some ==> r->0.deep_view() == self.record()->0,
    {
        self.deployed_files.as_ref()
    }

    #[must_use]
    pub fn active_mods(&self) -> (r: Option<&Vec<String>>)
        ensures
            r is Some == self.current()@.mods is Some,
            r is Some ==> r->0.deep_view() == self.current()@.mods->0,
    {
        self.profile.enabled_mods()
    }

    #[must_use]
    pub fn mod_active(&self, mod_name: &String) -> (r: bool)
        ensures
            r == (self.current()@.mods is Some && self.current()@.mods->0.contains(mod_name@)),
    {
        self.profile.mod_enabled(mod_name)
    }

    /// Enables a mod in the profile in use. Refused while deployed.
    pub fn activate_mod(&mut self, name: &String, installed: &Vec<String>) -> (r: Result<
        bool,
        ToryggError,
    >)
        ensures
            final(self).record() == old(self).record(),
            old(self).record() is Some ==> r is Err && r->Err_0 == ToryggError::IsDeployed && final(self).current()
                == old(self).current(),
            old(self).record() is None && !installed.deep_view().contains(name@) ==> r is Err
                && r->Err_0 is Other && final(self).current()@ == old(self).current()@,
            old(self).record() is None && installed.deep_view().contains(name@) ==> r is Ok && final(self).current()@.name
                == old(self).current()@.name && final(self).current()@.mods == toggled(
                old(self).current()@.mods,
                name@,
                true,
            ),
    {
        if self.deployed() {
            return Err(ToryggError::IsDeployed);
        }
        self.profile.enable_mod(name, installed)
    }

    /// Disables a mod in the profile in use. Refused while deployed.
    pub fn deactivate_mod(&mut self, name: &String, installed: &Vec<String>) -> (r: Result<
        bool,
        ToryggError,
    >)
        ensures
            final(self).record() == old(self).record(),
            old(self).record() is Some ==> r is Err && r->Err_0 == ToryggError::IsDeployed && final(self).current()
                == old(self).current(),
            old(self).record() is None && !installed.deep_view().contains(name@) ==> r is Err
                && r->Err_0 is Other && final(self).current()@ == old(self).current()@,
            old(self).record() is None && installed.deep_view().contains(name@) ==> r is Ok && final(self).current()@.name
                == old(self).current()@.name && final(self).current()@.mods == toggled(
                old(self).current()@.mods,
                name@,
                false,
            ),
    {
        if self.deployed() {
            return Err(ToryggError::IsDeployed);
        }
        self.profile.disable_mod(name, installed)
    }

    #[must_use]
    pub fn profile(&self) -> (r: &Profile)
        ensures
            *r == self.current(),
    {
        &self.profile
    }

    /// The profile in use, to change it in place.
    pub fn profile_mut(&mut self) -> (r: &mut Profile)
        ensures
            *r == old(self).current(),
            final(self).current() == *final(r),
            final(self).record() == old(self).record(),
    {
        &mut self.profile
    }

    /// Changes the profile in use. Refused while deployed.
    pub fn set_profile(&mut self, profile: Profile) -> (r: Result<(), ToryggError>)
        ensures
            final(self).record() == old(self).record(),
            old(self).record() is Some ==> r is Err && r->Err_0 == ToryggError::IsDeployed && final(self).current()
                == old(self).current(),
            old(self).record() is None ==> r is Ok && final(self).current() == profile,
    {
        if self.deployed() {
            return Err(ToryggError::IsDeployed);
        }
        self.profile = profile;
        Ok(())
    }

    /// Takes note that `profile` is to be deleted, after which its directory is
    /// to be removed. The profile in use cannot be deleted while deployed;
    /// when it is deleted, `fallback` becomes the profile in use. Returns
    /// whether the profile in use changed.
    pub fn delete_profile(&mut self, profile: &Profile, fallback: Profile) -> (r: Result<
        bool,
        ToryggError,
    >)
        ensures
            final(self).record() == old(self).record(),
            profile@ == old(self).current()@ && old(self).record() is Some ==> r is Err && r->Err_0
                == ToryggError::IsDeployed && final(self).current() == old(self).current(),
            profile@ == old(self).current()@ && old(self).record() is None ==> r == Ok::<
                bool,
                ToryggError,
            >(true) && final(self).current() == fallback,
            profile@ != old(self).current()@ ==> r == Ok::<bool, ToryggError>(false) && final(self).current() == old(self).current(),
    {
        if !profile.same(&self.profile) {
            return Ok(false);
        }
        if self.deployed() {
            return Err(ToryggError::IsDeployed);
        }
        self.profile = fallback;
        Ok(true)
    }

    /// Plans the deployment of `layers` onto `target`. The layers have to be
    /// the enabled mods of the profile in use: one layer for each, under the
    /// mod's name, in load order, so that a later mod of the profile overrides
    /// an earlier one. Refused while deployed. A profile without enabled mods
    /// deploys nothing: the call succeeds, decides no action and records
    /// nothing. Where the pass touched a path, its record becomes the state's
    /// record. The record is to be stored once, when all the actions have been
    /// carried out, and not after each of them: a deployment that breaks off
    /// on disk leaves no stored record.
    pub fn deploy(&mut self, target: Tree, vault: Tree, layers: &Vec<ModLayer>) -> (r: Result<
        Deployment,
        ToryggError,
    >)
        requires
            target.wf(),
            vault.wf(),
            layers_wf(layers@),
        ensures
            final(self).current() == old(self).current(),
            old(self).record() is Some ==> r is Err && r->Err_0 == ToryggError::IsDeployed && final(self).record()
                == old(self).record(),
            old(self).record() is None && layer_names(layers@) != enabled(old(self).current()@.mods)
                ==> r is Err && r->Err_0 is Other && r->Err_0->Other_0@
                == "the layers are not the enabled mods"@ && final(self).record() is None,
            old(self).record() is None && layer_names(layers@) == enabled(old(self).current()@.mods)
                ==> match deploy_spec(target@, vault@, layer_files(layers@)) {
                Ok(s) => r is Ok && r->Ok_0@ == s && r->Ok_0.wf() && final(self).record() == if s.record.len()
                    > 0 {
                    Some(s.record)
                } else {
                    None
                },
                Err(e) => r is Err && r->Err_0 == e && final(self).record() is None,
            },
    {
        if self.deployed() {
            return Err(ToryggError::IsDeployed);
        }
        let agree = match self.profile.enabled_mods() {
            Some(mods) => layers_are(layers, mods),
            None => {
                let none: Vec<String> = Vec::new();
                assert(none.deep_view() =~= Seq::<Seq<char>>::empty());
                layers_are(layers, &none)
            },
        };
        if !agree {
            return Err(ToryggError::Other("the layers are not the enabled mods".to_owned()));
        }
        let d = deploy_layers(target, vault, layers)?;
        assert(d.record.deep_view().len() == d.record.len());
        if d.record.len() > 0 {
            self.deployed_files = Some(record_clone(&d.record));
        }
        Ok(d)
    }

    /// Plans the reversal of the last deployment. Refused while nothing is
    /// deployed. On success the state has no record any more, to be stored
    /// before the vault is emptied.
    pub fn undeploy(&mut self, target: Tree, vault: &Tree) -> (r: Result<Deployment, ToryggError>)
        requires
            target.wf(),
            vault.wf(),
        ensures
            final(self).current() == old(self).current(),
            old(self).record() is None ==> r is Err && r->Err_0 == ToryggError::IsNotDeployed && final(self).record() is None,
            old(self).record() is Some ==> match undeploy_spec(target@, vault@, old(self).record()->0) {
                Ok(s) => r is Ok && r->Ok_0@ == s && r->Ok_0.wf() && final(self).record() is None,
                Err(e) => r is Err && r->Err_0 == e && final(self).record() == old(self).record(),
            },
    {
        let d = match &self.deployed_files {
            None => {
                return Err(ToryggError::IsNotDeployed);
            },
            Some(record) => undeploy_record(target, vault, record)?,
        };
        self.deployed_files = None;
        Ok(d)
    }
}

/// The enabled mods of a profile in load order; none where it has no list.
pub open spec fn enabled(mods: Option<Seq<Seq<char>>>) -> Seq<Seq<char>> {
    match mods {
        Some(m) => m,
        None => Seq::empty(),
    }
}

} // verus!
