use vstd::prelude::*;

verus! {

/// A compilation request as the outside driver hands it in: the emission
/// mode, the source path and the destination path.  The driver owns the
/// actual command-line parsing and the file handling; the library only
/// carries these three plain strings.
pub struct CLIArguments {
    pub mode: String,
    pub input: String,
    pub output: String,
}

} // verus!
