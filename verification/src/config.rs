//! The directories that the program keeps its own files in, found once and
//! handed on.

use vstd::prelude::*;
use crate::applauncher::rendered;
use crate::error::{IoFault, ToryggError};
use crate::existing_directory::{is_directory, ExistingDirectory};
use crate::tree::{holds, parent_is_dir, put_spec, Node, Tree};

verus! {

/// The configuration directory and the data directory.
#[derive(Debug)]
pub struct Config {
    config: ExistingDirectory,
    data: ExistingDirectory,
}

impl Config {
    /// The path of the configuration directory.
    pub closed spec fn config_path(&self) -> Seq<Seq<char>> {
        self.config@
    }

    /// The path of the data directory.
    pub closed spec fn data_path(&self) -> Seq<Seq<char>> {
        self.data@
    }
}

/// Takes the two directories.
pub fn init(config: ExistingDirectory, data: ExistingDirectory) -> (r: Config)
    ensures
        r.config_path() == config@,
        r.data_path() == data@,
{
    Config { config, data }
}

/// The configuration directory.
pub fn config_dir(config: &Config) -> (r: &ExistingDirectory)
    ensures
        r@ == config.config_path(),
{
    &config.config
}

/// The data directory.
pub fn data_dir(config: &Config) -> (r: &ExistingDirectory)
    ensures
        r@ == config.data_path(),
{
    &config.data
}

/// The directory in which the mods are kept: `Mods` in the data directory,
/// made if it is not there.
pub fn mods_dir(config: &Config, tree: &mut Tree) -> (r: Result<(ExistingDirectory, bool), ToryggError>)
    requires
        old(tree).wf(),
    ensures
        final(tree).wf(),
        r is Ok ==> r->Ok_0.0@ == config.data_path().push("Mods"@) && is_directory(
            final(tree)@,
            config.data_path().push("Mods"@),
        ),
        r is Ok <==> is_directory(old(tree)@, config.data_path().push("Mods"@)) || (!holds(
            old(tree)@,
            config.data_path().push("Mods"@),
        ) && parent_is_dir(old(tree)@, config.data_path().push("Mods"@))),
        r is Ok && r->Ok_0.1 ==> final(tree)@ == put_spec(
            old(tree)@,
            config.data_path().push("Mods"@),
            Node::Dir,
        ),
        !(r is Ok && r->Ok_0.1) ==> final(tree)@ == old(tree)@,
        r is Ok ==> r->Ok_0.1 == !holds(old(tree)@, config.data_path().push("Mods"@)),
        r is Err ==> if holds(old(tree)@, config.data_path().push("Mods"@)) {
            r->Err_0 is NotADirectory && r->Err_0->NotADirectory_0@ == rendered(
                config.data_path().push("Mods"@),
            )
        } else {
            r->Err_0 == ToryggError::IOError(IoFault::NotFound)
        },
{
    config.data.maybe_create_child_directory(tree, "Mods")
}

} // verus!
