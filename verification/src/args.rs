//! What the command line hands to the linter.

use vstd::prelude::*;

verus! {

/// The arguments of a run: the path of the manifest of the project whose
/// sources are checked.
#[derive(Debug)]
pub struct Args {
    pub manifest_path: String,
}

/// The manifest path of a run that names none.
pub open spec fn default_manifest_path() -> Seq<char> {
    "Cargo.toml"@
}

impl Args {
    /// The arguments of a run on the manifest at `manifest_path`.
    pub fn new(manifest_path: String) -> (args: Args)
        ensures
            args.manifest_path@ == manifest_path@,
    {
        Args { manifest_path }
    }
}

impl Default for Args {
    /// The arguments of a run that names no manifest: the manifest is looked
    /// for in the current directory.
    fn default() -> (args: Args)
        ensures
            args.manifest_path@ == default_manifest_path(),
    {
        Args { manifest_path: "Cargo.toml".to_owned() }
    }
}

} // verus!
