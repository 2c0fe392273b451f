use vstd::prelude::*;
use crate::config::{Config, PathFacts};
use crate::error::ShremError;
use crate::text::{concat3, decimal, decimal_of};

verus! {

/// Arguments for the overwrite tool on `path`: a final zero pass always, unlink
/// unless overwrite-only, verbose when asked, the pass count when one is set,
/// then the path.
pub open spec fn shred_args_of(c: Config, path: Seq<char>) -> Seq<Seq<char>> {
    seq!["-z"@] + (if c.no_remove {
        Seq::empty()
    } else {
        seq!["-u"@]
    }) + (if c.verbose {
        seq!["-v"@]
    } else {
        Seq::empty()
    }) + (match c.iterations {
        Some(n) => seq!["-n"@, decimal_of(n as nat)],
        None => Seq::empty(),
    }) + seq![path]
}

pub open spec fn strings_view(v: Seq<String>) -> Seq<Seq<char>> {
    v.map_values(|s: String| s@)
}

/// The question asked before a file is erased.
pub open spec fn remove_file_prompt(path: Seq<char>) -> Seq<char> {
    "remove file '"@ + path + "'?"@
}

/// The argument list of the overwrite tool for `path`.
pub fn get_shred_cmd(config: &Config, path: &String) -> (r: Vec<String>)
    ensures
        strings_view(r@) == shred_args_of(*config, path@),
{
    let mut args: Vec<String> = Vec::new();
    args.push(String::from_str("-z"));
    if !config.no_remove {
        args.push(String::from_str("-u"));
    }
    if config.verbose {
        args.push(String::from_str("-v"));
    }
    if let Some(n) = config.iterations {
        args.push(String::from_str("-n"));
        args.push(decimal(n));
    }
    args.push(path.clone());
    assert(strings_view(args@) =~= shred_args_of(*config, path@));
    args
}

/// What comes next for a file that is to be erased.
#[derive(Debug)]
pub enum FilePlan {
    /// Ask this question first; erase only on a yes.
    Confirm(String),
    /// Run the overwrite tool with these arguments.
    Overwrite(Vec<String>),
}

/// Checks a target of the eraser, before anything destructive: it must exist
/// and must not be a directory. Then either the question to ask (interactive
/// mode) or the overwrite tool's arguments.
pub fn shred_file(path: &String, config: &Config, facts: &PathFacts) -> (r: Result<
    FilePlan,
    ShremError,
>)
    ensures
        !facts.exists ==> r == Err::<FilePlan, ShremError>(ShremError::NotFound(*path)),
        facts.exists && facts.is_dir ==> r == Err::<FilePlan, ShremError>(
            ShremError::IsADirectory(*path),
        ),
        facts.exists && !facts.is_dir ==> r is Ok,
        r is Ok && config.interactive ==> r->Ok_0 is Confirm && r->Ok_0->Confirm_0@
            == remove_file_prompt(path@),
        r is Ok && !config.interactive ==> r->Ok_0 is Overwrite && strings_view(
            r->Ok_0->Overwrite_0@,
        ) == shred_args_of(*config, path@),
{
    if !facts.exists {
        return Err(ShremError::NotFound(path.clone()));
    }
    if facts.is_dir {
        return Err(ShremError::IsADirectory(path.clone()));
    }
    if config.interactive {
        Ok(FilePlan::Confirm(concat3("remove file '", path.as_str(), "'?")))
    } else {
        Ok(FilePlan::Overwrite(get_shred_cmd(config, path)))
    }
}

/// The outcome of an overwrite run from its exit code (`None`: ended by a signal).
pub fn exit_outcome(code: Option<i32>) -> (r: Result<(), ShremError>)
    ensures
        code == Some(0i32) <==> r is Ok,
        r is Ok ==> r == Ok::<(), ShremError>(()),
        r is Err ==> r == Err::<(), ShremError>(ShremError::ExternalProcessError(code)),
{
    match code {
        Some(0) => Ok(()),
        _ => Err(ShremError::ExternalProcessError(code)),
    }
}

/// Whether an answer to a question is a yes: its first character is `y` or `Y`.
pub fn is_affirmative(line: &str) -> (r: bool)
    ensures
        r <==> line@.len() > 0 && (line@[0] == 'y' || line@[0] == 'Y'),
{
    if line.is_empty() {
        return false;
    }
    let c = line.get_char(0);
    c == 'y' || c == 'Y'
}

} // verus!
