//! Mod deployment engine: layered composition of a game directory from an
//! ordered list of mod trees, with exact reversal.
//!
//! The library works on a model of the directories involved. A caller lists
//! the directories on disk into [`tree::Tree`] values, asks the library what
//! to do, and carries out the returned actions.
//!
//! - [`util`] resolves a path against a tree without regard to case.
//! - [`applauncher`] is the mount session: a union mount over a target, with
//!   the target's own contents moved aside while it stands.
//! - [`deploy`] plans deployment by copying and its reversal; [`state`] keeps
//!   the deployment record; [`laws`] proves what holds of the two together.
//! - [`modmanager`], [`fomod`] and [`fomod_install`] install a mod from its
//!   unpacked archive.
//! - [`vdf`], [`games`], [`wine`] and [`extract`] find a game and its tools.

pub mod error;
pub mod tree;
pub mod util;
pub mod deploy;
pub mod laws;
pub mod profile;
pub mod applauncher;
pub mod state;
pub mod vdf;
pub mod fomod;
pub mod fomod_install;
pub mod existing_directory;
pub mod config;
pub mod wine;
pub mod modmanager;
pub mod extract;
pub mod games;
