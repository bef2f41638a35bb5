//! The Wine prefix that a game runs in.

use vstd::prelude::*;
use vstd::string::StringExecFns;
use crate::applauncher::{render, rendered};

verus! {

/// A Wine prefix: the program to start, the prefix directory and the
/// environment to start it in.
#[derive(Debug)]
pub struct Prefix {
    pub wine_exec: Vec<String>,
    pub pfx: Vec<String>,
    pub env: Vec<(String, String)>,
}

impl Prefix {
    /// The prefix at `pfx`, with the system's Wine and with `WINE_PREFIX`
    /// set to the prefix directory.
    pub fn new(pfx: Vec<String>) -> (r: Prefix)
        ensures
            r.wine_exec.deep_view() == seq!["usr"@, "bin"@, "wine"@],
            r.pfx == pfx,
            r.env.deep_view() == seq![("WINE_PREFIX"@, rendered(pfx.deep_view()))],
    {
        let mut wine_exec: Vec<String> = Vec::new();
        wine_exec.push(String::from_str("usr"));
        wine_exec.push(String::from_str("bin"));
        wine_exec.push(String::from_str("wine"));
        assert(wine_exec.deep_view() =~= seq!["usr"@, "bin"@, "wine"@]);
        let mut env: Vec<(String, String)> = Vec::new();
        env.push((String::from_str("WINE_PREFIX"), render(&pfx)));
        assert(env.deep_view() =~= seq![("WINE_PREFIX"@, rendered(pfx.deep_view()))]);
        Prefix { wine_exec, pfx, env }
    }
}

} // verus!
