use vstd::prelude::*;
use crate::config::Config;
use crate::error::{description_of, ShremError};
use crate::text::concat4;

verus! {

/// The run over the paths given on one invocation: whether any of them failed.
pub struct Session {
    force: bool,
    failed: bool,
}

pub open spec fn diagnostic_of(path: Seq<char>, e: ShremError) -> Seq<char> {
    "shrem: cannot remove '"@ + path + "': "@ + description_of(e)
}

impl Session {
    pub closed spec fn force(&self) -> bool {
        self.force
    }

    /// Whether some path has failed so far.
    pub closed spec fn failed(&self) -> bool {
        self.failed
    }

    pub fn new(config: &Config) -> (r: Session)
        ensures
            r.force() == config.force,
            !r.failed(),
    {
        Session { force: config.force, failed: false }
    }

    /// Records whether a path succeeded; tells whether to go on with the next
    /// one: always under `force`, else only after a success.
    pub fn record(&mut self, ok: bool) -> (go_on: bool)
        ensures
            final(self).force() == old(self).force(),
            final(self).failed() == (old(self).failed() || !ok),
            go_on == (ok || old(self).force()),
    {
        if !ok {
            self.failed = true;
        }
        ok || self.force
    }

    /// The process's exit code: 1 if any path failed, else 0.
    pub fn exit_code(&self) -> (r: i32)
        ensures
            r == (if self.failed() {
                1i32
            } else {
                0i32
            }),
    {
        if self.failed {
            1
        } else {
            0
        }
    }
}

/// The line for standard error on a failure at `path`; none for a failure of
/// the overwrite tool, which has spoken for itself.
pub fn diagnostic(path: &str, e: &ShremError) -> (r: Option<String>)
    ensures
        r is None <==> *e is ExternalProcessError,
        r is Some ==> r->0@ == diagnostic_of(path@, *e),
{
    if e.is_external() {
        return None;
    }
    let line = concat4("shrem: cannot remove '", path, "': ", e.description());
    assert(line@ =~= diagnostic_of(path@, *e));
    Some(line)
}

} // verus!
