use vstd::prelude::*;

verus! {

/// Options of one invocation; read-only once built.
#[derive(Clone, Copy, Debug)]
pub struct Config {
    /// Descend into directories.
    pub recursive: bool,
    /// Tolerate missing targets and carry on past failures.
    pub force: bool,
    /// Report each rename and removal.
    pub verbose: bool,
    /// Ask before each descent and removal.
    pub interactive: bool,
    /// Refuse to work recursively on the filesystem root.
    pub preserve_root: bool,
    /// Overwrite only: keep files and directories in place.
    pub no_remove: bool,
    /// Number of overwrite passes; the overwrite tool's default when absent.
    pub iterations: Option<usize>,
}

impl Config {
    /// The defaults: every switch off except `preserve_root`, no pass count.
    pub fn new() -> (r: Config)
        ensures
            !r.recursive,
            !r.force,
            !r.verbose,
            !r.interactive,
            r.preserve_root,
            !r.no_remove,
            r.iterations is None,
    {
        Config {
            recursive: false,
            force: false,
            verbose: false,
            interactive: false,
            preserve_root: true,
            no_remove: false,
            iterations: None,
        }
    }
}

/// What the filesystem says of a path at the moment it is looked at.
#[derive(Clone, Copy, Debug)]
pub struct PathFacts {
    /// Something is there.
    pub exists: bool,
    /// It is a directory.
    pub is_dir: bool,
    /// It is absolute and has no parent: the filesystem root.
    pub is_root: bool,
    /// Length in bytes of its final component; 0 when it has none.
    pub name_len: usize,
}

} // verus!
