use vstd::prelude::*;
use crate::config::{Config, PathFacts};
use crate::eraser::{
    exit_outcome, get_shred_cmd, remove_file_prompt, shred_args_of, shred_file, strings_view,
    FilePlan,
};
use crate::error::ShremError;
use crate::obliterate::{
    begin_model, probe_model, renamed_model, step_view, Obliteration, ObliterationModel,
    ObliterationStep, PhaseModel, StepModel,
};
use crate::names::name_at;
use crate::text::{concat3, concat4};

verus! {

/// How a path is dealt with once the filesystem has been asked about it.
#[derive(Debug, PartialEq, Eq, Structural)]
pub enum Entry {
    /// Missing under `force`: nothing to do.
    Skip,
    /// The filesystem root in recursive mode under `preserve_root`.
    RefuseRoot,
    /// A directory in recursive mode: its entries first, then itself.
    Descend,
    /// Handed to the file eraser.
    Erase,
}

pub open spec fn entry_of(c: Config, f: PathFacts) -> Entry {
    if c.force && !f.exists {
        Entry::Skip
    } else if c.recursive && c.preserve_root && f.is_root {
        Entry::RefuseRoot
    } else if c.recursive && f.exists && f.is_dir {
        Entry::Descend
    } else {
        Entry::Erase
    }
}

/// Decides how a path is dealt with, in this order: a missing path under
/// `force` is skipped; in recursive mode the root is refused under
/// `preserve_root` and a directory is descended into; anything else goes to
/// the file eraser.
pub fn classify(config: &Config, facts: &PathFacts) -> (r: Entry)
    ensures
        r == entry_of(*config, *facts),
{
    if config.force && !facts.exists {
        Entry::Skip
    } else if config.recursive && config.preserve_root && facts.is_root {
        Entry::RefuseRoot
    } else if config.recursive && facts.exists && facts.is_dir {
        Entry::Descend
    } else {
        Entry::Erase
    }
}

/// Under `force` a missing path is skipped, in recursive mode or not.
pub proof fn lemma_force_skips_missing(c: Config, f: PathFacts)
    requires
        c.force,
        !f.exists,
    ensures
        entry_of(c, f) == Entry::Skip,
{
}

/// In recursive mode the filesystem root is refused under `preserve_root`,
/// and is worked on like any directory without it.
pub proof fn lemma_root_guard(c: Config, f: PathFacts)
    requires
        c.recursive,
        f.exists,
        f.is_dir,
        f.is_root,
    ensures
        c.preserve_root ==> entry_of(c, f) == Entry::RefuseRoot,
        !c.preserve_root ==> entry_of(c, f) == Entry::Descend,
{
}

/// A directory is never taken for a file: outside recursive mode it goes to
/// the file eraser, which refuses it.
pub proof fn lemma_directory_goes_to_eraser(c: Config, f: PathFacts)
    requires
        !c.recursive,
        f.exists,
        f.is_dir,
    ensures
        entry_of(c, f) == Entry::Erase,
{
}

pub open spec fn descend_prompt(path: Seq<char>) -> Seq<char> {
    "descend into directory '"@ + path + "'?"@
}

pub open spec fn remove_dir_prompt(path: Seq<char>) -> Seq<char> {
    "remove directory '"@ + path + "'?"@
}

/// What the filesystem, the terminal or the overwrite tool is to do next.
#[derive(Debug)]
pub enum Action {
    /// Report the `PathFacts` of the path.
    Inspect(String),
    /// Print the question and report the answer.
    Ask(String),
    /// Report the paths of the directory's entries.
    List(String),
    /// Report the path of the sibling of `path` named `name`, and whether it exists.
    Probe { path: String, name: String },
    /// Rename `from` to `to`.
    Rename { from: String, to: String },
    /// Remove the empty directory.
    RemoveDir(String),
    /// Run the overwrite tool with these arguments and report its exit code.
    Overwrite(Vec<String>),
    /// The walk is over, with this outcome.
    Finished(Result<(), ShremError>),
}

/// What came of the last action.
#[derive(Debug)]
pub enum Event {
    Inspected(PathFacts),
    Answered(bool),
    Listed(Vec<String>),
    Probed { sibling: String, taken: bool },
    Done,
    Exited(Option<i32>),
    /// The action failed; holds the system's description of the failure.
    Failed(String),
}

/// The next action, and the lines to print before it is carried out.
#[derive(Debug)]
pub struct Step {
    pub notes: Vec<String>,
    pub action: Action,
}

/// A `ShremError` with its texts as character sequences.
pub enum Failure {
    Io(Seq<char>),
    PreservedRoot,
    External(Option<i32>),
    NotFound(Seq<char>),
    IsADirectory(Seq<char>),
}

pub open spec fn failure_of(e: ShremError) -> Failure {
    match e {
        ShremError::IoError(m) => Failure::Io(m@),
        ShremError::PreservedRootError => Failure::PreservedRoot,
        ShremError::ExternalProcessError(c) => Failure::External(c),
        ShremError::NotFound(p) => Failure::NotFound(p@),
        ShremError::IsADirectory(p) => Failure::IsADirectory(p@),
    }
}

pub open spec fn result_view(r: Result<(), ShremError>) -> Result<(), Failure> {
    match r {
        Ok(_) => Ok(()),
        Err(e) => Err(failure_of(e)),
    }
}

/// An `Action` with its texts as character sequences.
pub enum ActionModel {
    Inspect(Seq<char>),
    Ask(Seq<char>),
    List(Seq<char>),
    Probe { path: Seq<char>, name: Seq<char> },
    Rename { from: Seq<char>, to: Seq<char> },
    RemoveDir(Seq<char>),
    Overwrite(Seq<Seq<char>>),
    Finished(Result<(), Failure>),
}

pub open spec fn action_view(a: Action) -> ActionModel {
    match a {
        Action::Inspect(p) => ActionModel::Inspect(p@),
        Action::Ask(q) => ActionModel::Ask(q@),
        Action::List(p) => ActionModel::List(p@),
        Action::Probe { path, name } => ActionModel::Probe { path: path@, name: name@ },
        Action::Rename { from, to } => ActionModel::Rename { from: from@, to: to@ },
        Action::RemoveDir(p) => ActionModel::RemoveDir(p@),
        Action::Overwrite(args) => ActionModel::Overwrite(strings_view(args@)),
        Action::Finished(r) => ActionModel::Finished(result_view(r)),
    }
}

/// What a path being worked on waits for.
pub enum StageModel {
    /// Its `PathFacts`.
    Inspecting,
    /// The answer to whether to descend into it.
    ConfirmingDescent { name_len: nat },
    /// The list of its entries.
    Listing { name_len: nat },
    /// The end of the walk of `entries[next - 1]`; the others from `next` on follow.
    Visiting { entries: Seq<Seq<char>>, next: nat, name_len: nat },
    /// The answer to whether to remove it.
    ConfirmingRemoval { name_len: nat },
    /// The next report of its obliteration.
    Obliterating(ObliterationModel),
    /// The answer to whether to erase it.
    ConfirmingFile,
    /// The exit code of the overwrite tool.
    Overwriting,
}

/// A path being worked on; the walk is a stack of them, the first given path at the bottom.
pub struct FrameModel {
    pub path: Seq<char>,
    pub stage: StageModel,
}

/// The result of a transition: the new stack, the lines to print, the next action.
pub type Transition = (Seq<FrameModel>, Seq<Seq<char>>, ActionModel);

pub open spec fn removing_note(p: Seq<char>) -> Seq<char> {
    "shrem: "@ + p + ": removing"@
}

pub open spec fn removed_note(p: Seq<char>) -> Seq<char> {
    "shrem: "@ + p + ": removed"@
}

pub open spec fn renamed_note(from: Seq<char>, to: Seq<char>) -> Seq<char> {
    "shrem: "@ + from + ": renamed to "@ + to
}

/// The verbose line that goes with an obliteration step: one for a rename.
pub open spec fn step_notes(verbose: bool, st: StepModel) -> Seq<Seq<char>> {
    match st {
        StepModel::Rename { from, to } => if verbose {
            seq![renamed_note(from, to)]
        } else {
            Seq::empty()
        },
        _ => Seq::empty(),
    }
}

pub open spec fn step_action(st: StepModel) -> ActionModel {
    match st {
        StepModel::Probe { path, name } => ActionModel::Probe { path, name },
        StepModel::Rename { from, to } => ActionModel::Rename { from, to },
        StepModel::Remove(p) => ActionModel::RemoveDir(p),
    }
}

/// The obliteration of the emptied directory `p` begins, above `rest`.
pub open spec fn start_model(
    c: Config,
    rest: Seq<FrameModel>,
    p: Seq<char>,
    name_len: nat,
    notes: Seq<Seq<char>>,
) -> Transition {
    let (o, st) = begin_model(p, name_len);
    let said = if c.verbose {
        notes.push(removing_note(p))
    } else {
        notes
    };
    (
        rest.push(FrameModel { path: p, stage: StageModel::Obliterating(o) }),
        said + step_notes(c.verbose, st),
        step_action(st),
    )
}

/// The emptied directory `p` is to go: the question first in interactive mode.
pub open spec fn removal_model(
    c: Config,
    rest: Seq<FrameModel>,
    p: Seq<char>,
    name_len: nat,
    notes: Seq<Seq<char>>,
) -> Transition {
    if c.interactive {
        (
            rest.push(FrameModel { path: p, stage: StageModel::ConfirmingRemoval { name_len } }),
            notes,
            ActionModel::Ask(remove_dir_prompt(p)),
        )
    } else {
        start_model(c, rest, p, name_len, notes)
    }
}

/// The path above `frames` is done with `result`. A failure ends the walk.
/// On a success the directory below goes on with its next entry; with none
/// left it is kept in overwrite-only mode (and counts as done), else its
/// removal begins. An empty stack ends the walk with success.
pub open spec fn unwind_model(
    c: Config,
    frames: Seq<FrameModel>,
    result: Result<(), Failure>,
    notes: Seq<Seq<char>>,
) -> Transition
    decreases frames.len(),
{
    if result is Err {
        (Seq::empty(), notes, ActionModel::Finished(result))
    } else if frames.len() == 0 {
        (Seq::empty(), notes, ActionModel::Finished(Ok(())))
    } else {
        let top = frames.last();
        let rest = frames.drop_last();
        match top.stage {
            StageModel::Visiting { entries, next, name_len } => {
                if next < entries.len() {
                    (
                        rest.push(
                            FrameModel {
                                path: top.path,
                                stage: StageModel::Visiting { entries, next: next + 1, name_len },
                            },
                        ).push(FrameModel { path: entries[next as int], stage: StageModel::Inspecting }),
                        notes,
                        ActionModel::Inspect(entries[next as int]),
                    )
                } else if c.no_remove {
                    unwind_model(c, rest, Ok(()), notes)
                } else {
                    removal_model(c, rest, top.path, name_len, notes)
                }
            },
            _ => (Seq::empty(), notes, ActionModel::Finished(Ok(()))),
        }
    }
}

/// The outcome of an overwrite run from its exit code.
pub open spec fn exit_result(code: Option<i32>) -> Result<(), Failure> {
    if code == Some(0i32) {
        Ok(())
    } else {
        Err(Failure::External(code))
    }
}

/// One transition of the walk under `c`, from the stack `frames` on the report `e`.
pub open spec fn next_model(c: Config, frames: Seq<FrameModel>, e: Event) -> Transition {
    let top = frames.last();
    let rest = frames.drop_last();
    let p = top.path;
    let none = Seq::<Seq<char>>::empty();
    match e {
        Event::Failed(m) => (Seq::empty(), none, ActionModel::Finished(Err(Failure::Io(m@)))),
        Event::Inspected(f) => match entry_of(c, f) {
            Entry::Skip => unwind_model(c, rest, Ok(()), none),
            Entry::RefuseRoot => unwind_model(c, rest, Err(Failure::PreservedRoot), none),
            Entry::Descend => if c.interactive {
                (
                    rest.push(
                        FrameModel {
                            path: p,
                            stage: StageModel::ConfirmingDescent { name_len: f.name_len as nat },
                        },
                    ),
                    none,
                    ActionModel::Ask(descend_prompt(p)),
                )
            } else {
                (
                    rest.push(
                        FrameModel {
                            path: p,
                            stage: StageModel::Listing { name_len: f.name_len as nat },
                        },
                    ),
                    none,
                    ActionModel::List(p),
                )
            },
            Entry::Erase => if !f.exists {
                unwind_model(c, rest, Err(Failure::NotFound(p)), none)
            } else if f.is_dir {
                unwind_model(c, rest, Err(Failure::IsADirectory(p)), none)
            } else if c.interactive {
                (
                    rest.push(FrameModel { path: p, stage: StageModel::ConfirmingFile }),
                    none,
                    ActionModel::Ask(remove_file_prompt(p)),
                )
            } else {
                (
                    rest.push(FrameModel { path: p, stage: StageModel::Overwriting }),
                    none,
                    ActionModel::Overwrite(shred_args_of(c, p)),
                )
            },
        },
        Event::Answered(yes) => match top.stage {
            StageModel::ConfirmingDescent { name_len } => if yes {
                (
                    rest.push(FrameModel { path: p, stage: StageModel::Listing { name_len } }),
                    none,
                    ActionModel::List(p),
                )
            } else {
                unwind_model(c, rest, Ok(()), none)
            },
            StageModel::ConfirmingRemoval { name_len } => if yes {
                start_model(c, rest, p, name_len, none)
            } else {
                unwind_model(c, rest, Ok(()), none)
            },
            _ => if yes {
                (
                    rest.push(FrameModel { path: p, stage: StageModel::Overwriting }),
                    none,
                    ActionModel::Overwrite(shred_args_of(c, p)),
                )
            } else {
                unwind_model(c, rest, Ok(()), none)
            },
        },
        Event::Listed(entries) => {
            let name_len = match top.stage {
                StageModel::Listing { name_len } => name_len,
                _ => 0,
            };
            let es = strings_view(entries@);
            if es.len() > 0 {
                (
                    rest.push(
                        FrameModel {
                            path: p,
                            stage: StageModel::Visiting { entries: es, next: 1, name_len },
                        },
                    ).push(FrameModel { path: es[0], stage: StageModel::Inspecting }),
                    none,
                    ActionModel::Inspect(es[0]),
                )
            } else if c.no_remove {
                unwind_model(c, rest, Ok(()), none)
            } else {
                removal_model(c, rest, p, name_len, none)
            }
        },
        Event::Probed { sibling, taken } => match top.stage {
            StageModel::Obliterating(o) => {
                let (o2, st) = probe_model(o, sibling@, taken);
                (
                    rest.push(FrameModel { path: p, stage: StageModel::Obliterating(o2) }),
                    step_notes(c.verbose, st),
                    step_action(st),
                )
            },
            _ => (Seq::empty(), none, ActionModel::Finished(Ok(()))),
        },
        Event::Done => match top.stage {
            StageModel::Obliterating(o) => if o.phase is Remove {
                unwind_model(
                    c,
                    rest,
                    Ok(()),
                    if c.verbose {
                        seq![removed_note(o.path)]
                    } else {
                        none
                    },
                )
            } else {
                let (o2, st) = renamed_model(o);
                (
                    rest.push(FrameModel { path: p, stage: StageModel::Obliterating(o2) }),
                    step_notes(c.verbose, st),
                    step_action(st),
                )
            },
            _ => (Seq::empty(), none, ActionModel::Finished(Ok(()))),
        },
        Event::Exited(code) => unwind_model(c, rest, exit_result(code), none),
    }
}

/// Whether `e` is the kind of report that the last action asked for.
pub open spec fn expects_model(frames: Seq<FrameModel>, e: Event) -> bool {
    &&& frames.len() >= 1
    &&& match frames.last().stage {
        StageModel::Inspecting => e is Inspected,
        StageModel::ConfirmingDescent { .. } => e is Answered,
        StageModel::ConfirmingRemoval { .. } => e is Answered,
        StageModel::ConfirmingFile => e is Answered,
        StageModel::Listing { .. } => e is Listed || e is Failed,
        StageModel::Visiting { .. } => false,
        StageModel::Obliterating(o) => e is Failed || (o.phase is Seek && e is Probed) || (!(
        o.phase is Seek) && e is Done),
        StageModel::Overwriting => e is Exited || e is Failed,
    }
}

/// Every action but the end of the walk is answered by a report that the
/// walk then expects.
pub open spec fn awaits_report(frames: Seq<FrameModel>, a: ActionModel) -> bool {
    match a {
        ActionModel::Finished(_) => frames.len() == 0,
        ActionModel::Inspect(_) => expects_model(frames, Event::Inspected(arbitrary())),
        ActionModel::Ask(_) => expects_model(frames, Event::Answered(arbitrary())),
        ActionModel::List(_) => expects_model(frames, Event::Listed(arbitrary())),
        ActionModel::Probe { .. } => expects_model(
            frames,
            Event::Probed { sibling: arbitrary(), taken: arbitrary() },
        ),
        ActionModel::Rename { .. } => expects_model(frames, Event::Done),
        ActionModel::RemoveDir(_) => expects_model(frames, Event::Done),
        ActionModel::Overwrite(_) => expects_model(frames, Event::Exited(arbitrary())),
    }
}

enum Stage {
    Inspecting,
    ConfirmingDescent { name_len: usize },
    Listing { name_len: usize },
    Visiting { entries: Vec<String>, next: usize, name_len: usize },
    ConfirmingRemoval { name_len: usize },
    Obliterating(Obliteration),
    ConfirmingFile,
    Overwriting,
}

struct Frame {
    path: String,
    stage: Stage,
}

spec fn frame_model(f: Frame) -> FrameModel {
    FrameModel {
        path: f.path@,
        stage: match f.stage {
            Stage::Inspecting => StageModel::Inspecting,
            Stage::ConfirmingDescent { name_len } => StageModel::ConfirmingDescent {
                name_len: name_len as nat,
            },
            Stage::Listing { name_len } => StageModel::Listing { name_len: name_len as nat },
            Stage::Visiting { entries, next, name_len } => StageModel::Visiting {
                entries: strings_view(entries@),
                next: next as nat,
                name_len: name_len as nat,
            },
            Stage::ConfirmingRemoval { name_len } => StageModel::ConfirmingRemoval {
                name_len: name_len as nat,
            },
            Stage::Obliterating(o) => StageModel::Obliterating(o.model()),
            Stage::ConfirmingFile => StageModel::ConfirmingFile,
            Stage::Overwriting => StageModel::Overwriting,
        },
    }
}

spec fn models(frames: Seq<Frame>) -> Seq<FrameModel> {
    frames.map_values(|f: Frame| frame_model(f))
}

proof fn lemma_models_push(frames: Seq<Frame>, f: Frame)
    ensures
        models(frames.push(f)) == models(frames).push(frame_model(f)),
{
    assert(models(frames.push(f)) =~= models(frames).push(frame_model(f)));
}

proof fn lemma_models_drop_last(frames: Seq<Frame>)
    requires
        frames.len() >= 1,
    ensures
        models(frames.drop_last()) == models(frames).drop_last(),
        models(frames).last() == frame_model(frames.last()),
{
    assert(models(frames.drop_last()) =~= models(frames).drop_last());
}

spec fn frame_wf(f: Frame, top: bool) -> bool {
    match f.stage {
        Stage::Visiting { entries, next, .. } => !top && 1 <= next <= entries@.len(),
        Stage::Obliterating(o) => top && o.wf(),
        _ => top,
    }
}

spec fn visiting_only(frames: Seq<Frame>) -> bool {
    forall|i: int| 0 <= i < frames.len() ==> frame_wf(#[trigger] frames[i], false)
}

/// Depth-first, post-order destruction of one path: the state between two
/// filesystem actions.
pub struct Walker {
    config: Config,
    frames: Vec<Frame>,
}

/// The action for a step of an obliteration, with the line that reports a
/// rename in verbose mode.
fn obliteration_step_action(verbose: bool, step: ObliterationStep, notes: &mut Vec<String>) -> (r:
    Action)
    ensures
        action_view(r) == step_action(step_view(step)),
        strings_view(final(notes)@) == strings_view(old(notes)@) + step_notes(
            verbose,
            step_view(step),
        ),
{
    let ghost before = strings_view(notes@);
    match step {
        ObliterationStep::Probe { path, name } => {
            assert(strings_view(notes@) =~= before + Seq::<Seq<char>>::empty());
            Action::Probe { path, name }
        },
        ObliterationStep::Rename { from, to } => {
            if verbose {
                notes.push(concat4("shrem: ", from.as_str(), ": renamed to ", to.as_str()));
                assert(strings_view(notes@) =~= before + seq![renamed_note(from@, to@)]);
            } else {
                assert(strings_view(notes@) =~= before + Seq::<Seq<char>>::empty());
            }
            Action::Rename { from, to }
        },
        ObliterationStep::Remove(p) => {
            assert(strings_view(notes@) =~= before + Seq::<Seq<char>>::empty());
            Action::RemoveDir(p)
        },
    }
}

impl Walker {
    pub closed spec fn config(&self) -> Config {
        self.config
    }

    /// The stack of paths being worked on; empty once the walk is over.
    pub closed spec fn model(&self) -> Seq<FrameModel> {
        models(self.frames@)
    }

    /// How many paths are being worked on, the first given one included; 0 once finished.
    pub open spec fn depth(&self) -> nat {
        self.model().len()
    }

    /// The path worked on now.
    pub open spec fn top_path(&self) -> Seq<char> {
        self.model().last().path
    }

    pub closed spec fn wf(&self) -> bool {
        forall|i: int|
            0 <= i < self.frames@.len() ==> frame_wf(
                #[trigger] self.frames@[i],
                i == self.frames@.len() - 1,
            )
    }

    /// Whether `e` is the kind of report that the last action asked for.
    pub open spec fn expects(&self, e: Event) -> bool {
        expects_model(self.model(), e)
    }

    /// A walk of `path`, whose first action is to inspect it.
    pub fn new(config: Config, path: String) -> (r: (Walker, Action))
        ensures
            r.0.wf(),
            r.0.config() == config,
            r.0.model() == seq![FrameModel { path: path@, stage: StageModel::Inspecting }],
            action_view(r.1) == ActionModel::Inspect(path@),
            awaits_report(r.0.model(), action_view(r.1)),
    {
        let p = path.clone();
        let mut frames: Vec<Frame> = Vec::new();
        frames.push(Frame { path, stage: Stage::Inspecting });
        let w = Walker { config, frames };
        assert(w.model() =~= seq![FrameModel { path: p@, stage: StageModel::Inspecting }]);
        (w, Action::Inspect(p))
    }

    /// Whether the walk is over.
    pub fn is_finished(&self) -> (r: bool)
        ensures
            r == (self.depth() == 0),
    {
        self.frames.len() == 0
    }

    /// Whether `e` is the kind of report that the last action asked for.
    pub fn accepts(&self, e: &Event) -> (r: bool)
        ensures
            r == self.expects(*e),
    {
        let n = self.frames.len();
        if n == 0 {
            return false;
        }
        proof {
            lemma_models_drop_last(self.frames@);
        }
        match &self.frames[n - 1].stage {
            Stage::Inspecting => matches!(e, Event::Inspected(_)),
            Stage::ConfirmingDescent { .. } => matches!(e, Event::Answered(_)),
            Stage::ConfirmingRemoval { .. } => matches!(e, Event::Answered(_)),
            Stage::ConfirmingFile => matches!(e, Event::Answered(_)),
            Stage::Listing { .. } => matches!(e, Event::Listed(_)) || matches!(e, Event::Failed(_)),
            Stage::Visiting { .. } => false,
            Stage::Obliterating(o) => {
                let seeking = o.seeking();
                matches!(e, Event::Failed(_)) || (seeking && matches!(e, Event::Probed { .. })) || (
                !seeking && matches!(e, Event::Done))
            },
            Stage::Overwriting => matches!(e, Event::Exited(_)) || matches!(e, Event::Failed(_)),
        }
    }

    /// Starts the obliteration of the emptied directory `path`.
    fn start_obliteration(&mut self, path: String, name_len: usize, notes: &mut Vec<String>) -> (r:
        Action)
        requires
            visiting_only(old(self).frames@),
        ensures
            final(self).wf(),
            final(self).config == old(self).config,
            (models(final(self).frames@), strings_view(final(notes)@), action_view(r))
                == start_model(
                old(self).config,
                models(old(self).frames@),
                path@,
                name_len as nat,
                strings_view(old(notes)@),
            ),
    {
        let ghost before = strings_view(notes@);
        if self.config.verbose {
            notes.push(concat3("shrem: ", path.as_str(), ": removing"));
            assert(strings_view(notes@) =~= before.push(removing_note(path@)));
        }
        let (o, st) = Obliteration::begin(path.clone(), name_len);
        let action = obliteration_step_action(self.config.verbose, st, notes);
        let ghost f = Frame { path, stage: Stage::Obliterating(o) };
        self.frames.push(Frame { path, stage: Stage::Obliterating(o) });
        proof {
            assert(forall|i: int|
                0 <= i < old(self).frames@.len() ==> self.frames@[i] == old(self).frames@[i]);
            lemma_models_push(old(self).frames@, self.frames@.last());
            assert(self.frames@ =~= old(self).frames@.push(self.frames@.last()));
        }
        action
    }

    /// The emptied directory `path` is to go: the question first in
    /// interactive mode, else the obliteration starts.
    fn open_removal(&mut self, path: String, name_len: usize, notes: &mut Vec<String>) -> (r:
        Action)
        requires
            visiting_only(old(self).frames@),
        ensures
            final(self).wf(),
            final(self).config == old(self).config,
            (models(final(self).frames@), strings_view(final(notes)@), action_view(r))
                == removal_model(
                old(self).config,
                models(old(self).frames@),
                path@,
                name_len as nat,
                strings_view(old(notes)@),
            ),
    {
        if self.config.interactive {
            let q = concat3("remove directory '", path.as_str(), "'?");
            self.frames.push(Frame { path, stage: Stage::ConfirmingRemoval { name_len } });
            proof {
                assert(forall|i: int|
                    0 <= i < old(self).frames@.len() ==> self.frames@[i] == old(self).frames@[i]);
                assert(self.frames@ =~= old(self).frames@.push(self.frames@.last()));
                lemma_models_push(old(self).frames@, self.frames@.last());
            }
            return Action::Ask(q);
        }
        self.start_obliteration(path, name_len, notes)
    }

    /// A path is done with `result`; what follows is `unwind_model`.
    fn unwind(&mut self, result: Result<(), ShremError>, notes: &mut Vec<String>) -> (r: Action)
        requires
            visiting_only(old(self).frames@),
        ensures
            final(self).wf(),
            final(self).config == old(self).config,
            (models(final(self).frames@), strings_view(final(notes)@), action_view(r))
                == unwind_model(
                old(self).config,
                models(old(self).frames@),
                result_view(result),
                strings_view(old(notes)@),
            ),
    {
        match result {
            Err(e) => {
                self.frames = Vec::new();
                proof {
                    assert(models(self.frames@) =~= Seq::<FrameModel>::empty());
                }
                return Action::Finished(Err(e));
            },
            Ok(u) => {
                assert(u == ());
            },
        }
        loop
            invariant
                visiting_only(self.frames@),
                self.config == old(self).config,
                unwind_model(
                    old(self).config,
                    models(old(self).frames@),
                    result_view(result),
                    strings_view(old(notes)@),
                ) == unwind_model(self.config, models(self.frames@), Ok(()), strings_view(notes@)),
            decreases self.frames@.len(),
        {
            if self.frames.len() == 0 {
                proof {
                    assert(models(self.frames@) =~= Seq::<FrameModel>::empty());
                }
                return Action::Finished(Ok(()));
            }
            let ghost before = self.frames@;
            let Frame { path, stage } = self.frames.pop().unwrap();
            proof {
                assert(self.frames@ =~= before.drop_last());
                lemma_models_drop_last(before);
                assert(frame_wf(before[before.len() - 1], false));
            }
            match stage {
                Stage::Visiting { entries, next, name_len } => {
                    if next < entries.len() {
                        let child = entries[next].clone();
                        let shown = child.clone();
                        let ghost rest = self.frames@;
                        self.frames.push(
                            Frame {
                                path,
                                stage: Stage::Visiting { entries, next: next + 1, name_len },
                            },
                        );
                        let ghost mid = self.frames@;
                        self.frames.push(Frame { path: child, stage: Stage::Inspecting });
                        proof {
                            lemma_models_push(rest, mid.last());
                            assert(mid =~= rest.push(mid.last()));
                            lemma_models_push(mid, self.frames@.last());
                            assert(self.frames@ =~= mid.push(self.frames@.last()));
                            assert(forall|i: int|
                                0 <= i < before.len() - 1 ==> self.frames@[i] == before[i]);
                        }
                        return Action::Inspect(shown);
                    }
                    if !self.config.no_remove {
                        return self.open_removal(path, name_len, notes);
                    }
                },
                _ => {
                    proof {
                        assert(false);
                    }
                },
            }
        }
    }

    /// Takes the report on the last action and gives the next one: what
    /// `next_model` says, from the walk's stack and the report.
    pub fn step(&mut self, event: Event) -> (r: Step)
        requires
            old(self).wf(),
            old(self).expects(event),
        ensures
            final(self).wf(),
            final(self).config() == old(self).config(),
            (final(self).model(), strings_view(r.notes@), action_view(r.action)) == next_model(
                old(self).config(),
                old(self).model(),
                event,
            ),
            awaits_report(final(self).model(), action_view(r.action)),
    {
        let config = self.config;
        let verbose = config.verbose;
        let mut notes: Vec<String> = Vec::new();
        let ghost before = self.frames@;
        let ghost none = Seq::<Seq<char>>::empty();
        proof {
            lemma_next_awaits(config, models(before), event);
            lemma_models_drop_last(before);
            assert(strings_view(notes@) =~= none);
        }
        let Frame { path, stage } = self.frames.pop().unwrap();
        let ghost rest = self.frames@;
        proof {
            assert(rest =~= before.drop_last());
            assert(forall|i: int| 0 <= i < rest.len() ==> rest[i] == before[i]);
            assert(visiting_only(rest)) by {
                assert(forall|i: int| 0 <= i < rest.len() ==> frame_wf(#[trigger] before[i], false));
            }
            assert(frame_wf(before[before.len() - 1], true));
        }
        let outcome: Result<(), ShremError>;
        match event {
            Event::Failed(m) => {
                self.frames = Vec::new();
                proof {
                    assert(models(self.frames@) =~= Seq::<FrameModel>::empty());
                }
                return Step { notes, action: Action::Finished(Err(ShremError::IoError(m))) };
            },
            Event::Inspected(facts) => {
                match classify(&config, &facts) {
                    Entry::Skip => {
                        outcome = Ok(());
                    },
                    Entry::RefuseRoot => {
                        outcome = Err(ShremError::PreservedRootError);
                    },
                    Entry::Descend => {
                        let name_len = facts.name_len;
                        if config.interactive {
                            let q = concat3("descend into directory '", path.as_str(), "'?");
                            self.frames.push(
                                Frame { path, stage: Stage::ConfirmingDescent { name_len } },
                            );
                            proof {
                                self.lemma_pushed(rest);
                            }
                            return Step { notes, action: Action::Ask(q) };
                        }
                        let shown = path.clone();
                        self.frames.push(Frame { path, stage: Stage::Listing { name_len } });
                        proof {
                            self.lemma_pushed(rest);
                        }
                        return Step { notes, action: Action::List(shown) };
                    },
                    Entry::Erase => {
                        match shred_file(&path, &config, &facts) {
                            Err(e) => {
                                outcome = Err(e);
                            },
                            Ok(FilePlan::Confirm(q)) => {
                                self.frames.push(Frame { path, stage: Stage::ConfirmingFile });
                                proof {
                                    self.lemma_pushed(rest);
                                }
                                return Step { notes, action: Action::Ask(q) };
                            },
                            Ok(FilePlan::Overwrite(args)) => {
                                self.frames.push(Frame { path, stage: Stage::Overwriting });
                                proof {
                                    self.lemma_pushed(rest);
                                }
                                return Step { notes, action: Action::Overwrite(args) };
                            },
                        }
                    },
                }
            },
            Event::Answered(yes) => {
                match stage {
                    Stage::ConfirmingDescent { name_len } => {
                        if yes {
                            let shown = path.clone();
                            self.frames.push(Frame { path, stage: Stage::Listing { name_len } });
                            proof {
                                self.lemma_pushed(rest);
                            }
                            return Step { notes, action: Action::List(shown) };
                        }
                        outcome = Ok(());
                    },
                    Stage::ConfirmingRemoval { name_len } => {
                        if yes {
                            let action = self.start_obliteration(path, name_len, &mut notes);
                            return Step { notes, action };
                        }
                        outcome = Ok(());
                    },
                    _ => {
                        if yes {
                            let args = get_shred_cmd(&config, &path);
                            self.frames.push(Frame { path, stage: Stage::Overwriting });
                            proof {
                                self.lemma_pushed(rest);
                            }
                            return Step { notes, action: Action::Overwrite(args) };
                        }
                        outcome = Ok(());
                    },
                }
            },
            Event::Listed(entries) => {
                let name_len = match stage {
                    Stage::Listing { name_len } => name_len,
                    _ => 0,
                };
                if entries.len() > 0 {
                    let child = entries[0].clone();
                    let shown = child.clone();
                    self.frames.push(
                        Frame { path, stage: Stage::Visiting { entries, next: 1, name_len } },
                    );
                    let ghost mid = self.frames@;
                    self.frames.push(Frame { path: child, stage: Stage::Inspecting });
                    proof {
                        assert(mid =~= rest.push(mid.last()));
                        lemma_models_push(rest, mid.last());
                        assert(self.frames@ =~= mid.push(self.frames@.last()));
                        lemma_models_push(mid, self.frames@.last());
                        assert(forall|i: int| 0 <= i < rest.len() ==> self.frames@[i] == rest[i]);
                    }
                    return Step { notes, action: Action::Inspect(shown) };
                }
                if !config.no_remove {
                    let action = self.open_removal(path, name_len, &mut notes);
                    return Step { notes, action };
                }
                outcome = Ok(());
            },
            Event::Probed { sibling, taken } => {
                match stage {
                    Stage::Obliterating(mut o) => {
                        proof {
                            o.lemma_phases();
                        }
                        let st = o.on_probe(sibling, taken);
                        let action = obliteration_step_action(verbose, st, &mut notes);
                        self.frames.push(Frame { path, stage: Stage::Obliterating(o) });
                        proof {
                            self.lemma_pushed(rest);
                            assert(strings_view(notes@) =~= step_notes(verbose, step_view(st)));
                        }
                        return Step { notes, action };
                    },
                    _ => {
                        proof {
                            assert(false);
                        }
                        outcome = Ok(());
                    },
                }
            },
            Event::Done => {
                match stage {
                    Stage::Obliterating(mut o) => {
                        if o.removing() {
                            if verbose {
                                notes.push(
                                    concat3("shrem: ", o.current_path().as_str(), ": removed"),
                                );
                                proof {
                                    assert(strings_view(notes@) =~= seq![removed_note(o.model().path)]);
                                }
                            }
                            outcome = Ok(());
                        } else {
                            proof {
                                o.lemma_phases();
                            }
                            let st = o.on_renamed();
                            let action = obliteration_step_action(verbose, st, &mut notes);
                            self.frames.push(Frame { path, stage: Stage::Obliterating(o) });
                            proof {
                                self.lemma_pushed(rest);
                                assert(strings_view(notes@) =~= step_notes(verbose, step_view(st)));
                            }
                            return Step { notes, action };
                        }
                    },
                    _ => {
                        proof {
                            assert(false);
                        }
                        outcome = Ok(());
                    },
                }
            },
            Event::Exited(code) => {
                outcome = exit_outcome(code);
            },
        }
        let action = self.unwind(outcome, &mut notes);
        Step { notes, action }
    }

    /// After a push onto `rest`, every frame below the new top is a
    /// directory being visited, and the model grew by the new top's model.
    proof fn lemma_pushed(&self, rest: Seq<Frame>)
        requires
            visiting_only(rest),
            self.frames@.len() == rest.len() + 1,
            forall|i: int| 0 <= i < rest.len() ==> self.frames@[i] == rest[i],
            frame_wf(self.frames@.last(), true),
        ensures
            self.wf(),
            models(self.frames@) == models(rest).push(frame_model(self.frames@.last())),
    {
        assert(self.frames@ =~= rest.push(self.frames@.last()));
        lemma_models_push(rest, self.frames@.last());
    }
}

proof fn lemma_removal_awaits(
    c: Config,
    rest: Seq<FrameModel>,
    p: Seq<char>,
    name_len: nat,
    notes: Seq<Seq<char>>,
)
    ensures
        ({
            let t = removal_model(c, rest, p, name_len, notes);
            awaits_report(t.0, t.2)
        }),
{
}

proof fn lemma_unwind_awaits(
    c: Config,
    frames: Seq<FrameModel>,
    result: Result<(), Failure>,
    notes: Seq<Seq<char>>,
)
    ensures
        ({
            let t = unwind_model(c, frames, result, notes);
            awaits_report(t.0, t.2)
        }),
    decreases frames.len(),
{
    if !(result is Err) && frames.len() > 0 {
        lemma_unwind_awaits(c, frames.drop_last(), Ok(()), notes);
        lemma_removal_awaits(c, frames.drop_last(), frames.last().path, 0, notes);
        match frames.last().stage {
            StageModel::Visiting { name_len, .. } => {
                lemma_removal_awaits(c, frames.drop_last(), frames.last().path, name_len, notes);
            },
            _ => {},
        }
    }
}

/// Each action of the walk but its end is answered by a report of the kind
/// that the walk then expects, and the end comes with an empty stack.
pub proof fn lemma_next_awaits(c: Config, frames: Seq<FrameModel>, e: Event)
    requires
        expects_model(frames, e),
    ensures
        ({
            let t = next_model(c, frames, e);
            awaits_report(t.0, t.2)
        }),
{
    let rest = frames.drop_last();
    let none = Seq::<Seq<char>>::empty();
    lemma_unwind_awaits(c, rest, Ok(()), none);
    match e {
        Event::Inspected(f) => {
            lemma_unwind_awaits(c, rest, Err(Failure::PreservedRoot), none);
            lemma_unwind_awaits(c, rest, Err(Failure::NotFound(frames.last().path)), none);
            lemma_unwind_awaits(c, rest, Err(Failure::IsADirectory(frames.last().path)), none);
        },
        Event::Answered(_) => {
            match frames.last().stage {
                StageModel::ConfirmingRemoval { name_len } => {
                    lemma_removal_awaits(c, rest, frames.last().path, name_len, none);
                },
                _ => {},
            }
        },
        Event::Listed(entries) => {
            match frames.last().stage {
                StageModel::Listing { name_len } => {
                    lemma_removal_awaits(c, rest, frames.last().path, name_len, none);
                },
                _ => {
                    lemma_removal_awaits(c, rest, frames.last().path, 0, none);
                },
            }
        },
        Event::Done => {
            if c.verbose {
                match frames.last().stage {
                    StageModel::Obliterating(o) => {
                        lemma_unwind_awaits(c, rest, Ok(()), seq![removed_note(o.path)]);
                    },
                    _ => {},
                }
            }
        },
        Event::Exited(code) => {
            lemma_unwind_awaits(c, rest, exit_result(code), none);
        },
        _ => {},
    }
}

/// At any depth, a path that is missing under `force` is done at once with
/// success: no action is issued for it, and the walk goes on as after any
/// success. For the first given path the walk ends there with success.
pub proof fn lemma_missing_under_force_anywhere(c: Config, frames: Seq<FrameModel>, f: PathFacts)
    requires
        c.force,
        !f.exists,
    ensures
        next_model(c, frames, Event::Inspected(f)) == unwind_model(
            c,
            frames.drop_last(),
            Ok(()),
            Seq::empty(),
        ),
        frames.len() == 1 ==> next_model(c, frames, Event::Inspected(f)) == (
            Seq::<FrameModel>::empty(),
            Seq::<Seq<char>>::empty(),
            ActionModel::Finished(Ok(())),
        ),
{
}

/// At any depth, a no to a question leaves its path as it was: nothing is
/// issued for it, and the walk goes on as after a success. For the first
/// given path the walk ends there with success.
pub proof fn lemma_no_leaves_path_alone(c: Config, frames: Seq<FrameModel>)
    requires
        frames.len() >= 1,
        frames.last().stage is ConfirmingDescent || frames.last().stage is ConfirmingRemoval
            || frames.last().stage is ConfirmingFile,
    ensures
        next_model(c, frames, Event::Answered(false)) == unwind_model(
            c,
            frames.drop_last(),
            Ok(()),
            Seq::empty(),
        ),
        frames.len() == 1 ==> next_model(c, frames, Event::Answered(false)) == (
            Seq::<FrameModel>::empty(),
            Seq::<Seq<char>>::empty(),
            ActionModel::Finished(Ok(())),
        ),
{
}

/// In recursive mode under `preserve_root`, the root ends the whole walk
/// with `PreservedRootError` as soon as it is inspected, whatever `force`
/// says and at whatever depth, with nothing issued for it.
pub proof fn lemma_root_refused_anywhere(c: Config, frames: Seq<FrameModel>, f: PathFacts)
    requires
        c.recursive,
        c.preserve_root,
        f.exists,
        f.is_root,
    ensures
        next_model(c, frames, Event::Inspected(f)) == (
            Seq::<FrameModel>::empty(),
            Seq::<Seq<char>>::empty(),
            ActionModel::Finished(Err(Failure::PreservedRoot)),
        ),
{
}

/// A directory whose entries are all done is kept in overwrite-only mode: the
/// walk goes on below it with success, and no rename or removal is issued for it.
pub proof fn lemma_overwrite_only_keeps_directory(
    c: Config,
    frames: Seq<FrameModel>,
    notes: Seq<Seq<char>>,
)
    requires
        c.no_remove,
        frames.len() >= 1,
        frames.last().stage matches StageModel::Visiting { entries, next, .. } && next
            >= entries.len(),
    ensures
        unwind_model(c, frames, Ok(()), notes) == unwind_model(
            c,
            frames.drop_last(),
            Ok(()),
            notes,
        ),
{
}

/// The actions of a walk under `c` from the stack `frames` when the reports
/// are `events`, one after the other, and the stack it is left with.
pub open spec fn run(c: Config, frames: Seq<FrameModel>, events: Seq<Event>) -> (
    Seq<FrameModel>,
    Seq<ActionModel>,
)
    decreases events.len(),
{
    if events.len() == 0 {
        (frames, Seq::empty())
    } else {
        let t = next_model(c, frames, events[0]);
        let r = run(c, t.0, events.subrange(1, events.len() as int));
        (r.0, seq![t.2] + r.1)
    }
}

/// A directory `x` (final component of one byte) that holds a file `a` and
/// an empty directory `sub` (final component of three bytes), walked
/// recursively without questions and without overwrite-only, when every name
/// probed is free: the file is overwritten, `sub` is renamed to names of
/// three, two and one symbols and removed, `x` is renamed to a name of one
/// symbol and removed, and the walk ends with success.
pub proof fn lemma_file_and_empty_subdirectory(
    c: Config,
    x: Seq<char>,
    a: Seq<char>,
    sub: Seq<char>,
    s1: Seq<char>,
    s2: Seq<char>,
    s3: Seq<char>,
    s4: Seq<char>,
    e: Seq<Event>,
)
    requires
        c.recursive,
        !c.interactive,
        !c.no_remove,
        e.len() == 16,
        e[0] == Event::Inspected(PathFacts { exists: true, is_dir: true, is_root: false, name_len: 1 }),
        e[1] is Listed && strings_view(e[1]->Listed_0@) == seq![a, sub],
        e[2] is Inspected && e[2]->Inspected_0.exists && !e[2]->Inspected_0.is_dir
            && !e[2]->Inspected_0.is_root,
        e[3] == Event::Exited(Some(0i32)),
        e[4] == Event::Inspected(PathFacts { exists: true, is_dir: true, is_root: false, name_len: 3 }),
        e[5] is Listed && e[5]->Listed_0@.len() == 0,
        e[6] is Probed && !e[6]->Probed_taken && e[6]->Probed_sibling@ == s1,
        e[7] == Event::Done,
        e[8] is Probed && !e[8]->Probed_taken && e[8]->Probed_sibling@ == s2,
        e[9] == Event::Done,
        e[10] is Probed && !e[10]->Probed_taken && e[10]->Probed_sibling@ == s3,
        e[11] == Event::Done,
        e[12] == Event::Done,
        e[13] is Probed && !e[13]->Probed_taken && e[13]->Probed_sibling@ == s4,
        e[14] == Event::Done,
        e[15] == Event::Done,
    ensures
        run(c, seq![FrameModel { path: x, stage: StageModel::Inspecting }], e) == (
            Seq::<FrameModel>::empty(),
            seq![
                ActionModel::List(x),
                ActionModel::Inspect(a),
                ActionModel::Overwrite(shred_args_of(c, a)),
                ActionModel::Inspect(sub),
                ActionModel::List(sub),
                ActionModel::Probe { path: sub, name: name_at(0, 3) },
                ActionModel::Rename { from: sub, to: s1 },
                ActionModel::Probe { path: s1, name: name_at(0, 2) },
                ActionModel::Rename { from: s1, to: s2 },
                ActionModel::Probe { path: s2, name: name_at(0, 1) },
                ActionModel::Rename { from: s2, to: s3 },
                ActionModel::RemoveDir(s3),
                ActionModel::Probe { path: x, name: name_at(0, 1) },
                ActionModel::Rename { from: x, to: s4 },
                ActionModel::RemoveDir(s4),
                ActionModel::Finished(Ok(())),
            ],
        ),
{
    let fm = |p: Seq<char>, st: StageModel| FrameModel { path: p, stage: st };
    let ob = |p: Seq<char>, ph: PhaseModel| StageModel::Obliterating(
        ObliterationModel { path: p, phase: ph },
    );
    let v1 = StageModel::Visiting { entries: seq![a, sub], next: 1, name_len: 1 };
    let v2 = StageModel::Visiting { entries: seq![a, sub], next: 2, name_len: 1 };
    let fs = seq![
        seq![fm(x, StageModel::Inspecting)],
        seq![fm(x, StageModel::Listing { name_len: 1 })],
        seq![fm(x, v1), fm(a, StageModel::Inspecting)],
        seq![fm(x, v1), fm(a, StageModel::Overwriting)],
        seq![fm(x, v2), fm(sub, StageModel::Inspecting)],
        seq![fm(x, v2), fm(sub, StageModel::Listing { name_len: 3 })],
        seq![fm(x, v2), fm(sub, ob(sub, PhaseModel::Seek { len: 3, pos: 0 }))],
        seq![fm(x, v2), fm(sub, ob(sub, PhaseModel::Move { len: 3, to: s1 }))],
        seq![fm(x, v2), fm(sub, ob(s1, PhaseModel::Seek { len: 2, pos: 0 }))],
        seq![fm(x, v2), fm(sub, ob(s1, PhaseModel::Move { len: 2, to: s2 }))],
        seq![fm(x, v2), fm(sub, ob(s2, PhaseModel::Seek { len: 1, pos: 0 }))],
        seq![fm(x, v2), fm(sub, ob(s2, PhaseModel::Move { len: 1, to: s3 }))],
        seq![fm(x, v2), fm(sub, ob(s3, PhaseModel::Remove))],
        seq![fm(x, ob(x, PhaseModel::Seek { len: 1, pos: 0 }))],
        seq![fm(x, ob(x, PhaseModel::Move { len: 1, to: s4 }))],
        seq![fm(x, ob(s4, PhaseModel::Remove))],
        Seq::<FrameModel>::empty(),
    ];
    let acts = seq![
        ActionModel::List(x),
        ActionModel::Inspect(a),
        ActionModel::Overwrite(shred_args_of(c, a)),
        ActionModel::Inspect(sub),
        ActionModel::List(sub),
        ActionModel::Probe { path: sub, name: name_at(0, 3) },
        ActionModel::Rename { from: sub, to: s1 },
        ActionModel::Probe { path: s1, name: name_at(0, 2) },
        ActionModel::Rename { from: s1, to: s2 },
        ActionModel::Probe { path: s2, name: name_at(0, 1) },
        ActionModel::Rename { from: s2, to: s3 },
        ActionModel::RemoveDir(s3),
        ActionModel::Probe { path: x, name: name_at(0, 1) },
        ActionModel::Rename { from: x, to: s4 },
        ActionModel::RemoveDir(s4),
        ActionModel::Finished(Ok(())),
    ];
    assert forall|i: int| #![trigger e[i]] 0 <= i < 16 implies next_model(c, fs[i], e[i]).0 == fs[i + 1]
        && next_model(c, fs[i], e[i]).2 == acts[i] by {
        assert(next_model(c, fs[12], e[12]).0 =~= fs[13]) by {
            let rest = fs[12].drop_last();
            assert(rest =~= seq![fm(x, v2)]);
            assert(rest.drop_last() =~= Seq::<FrameModel>::empty());
        }
    }
    lemma_run_from(c, fs, acts, e, 0);
    assert(e.subrange(0, 16) =~= e);
    assert(acts.subrange(0, 16) =~= acts);
}

proof fn lemma_run_from(
    c: Config,
    fs: Seq<Seq<FrameModel>>,
    acts: Seq<ActionModel>,
    e: Seq<Event>,
    k: int,
)
    requires
        e.len() == acts.len(),
        fs.len() == e.len() + 1,
        0 <= k <= e.len(),
        forall|i: int|
            #![trigger e[i]]
            0 <= i < e.len() ==> next_model(c, fs[i], e[i]).0 == fs[i + 1] && next_model(
                c,
                fs[i],
                e[i],
            ).2 == acts[i],
    ensures
        run(c, fs[k], e.subrange(k, e.len() as int)) == (
            fs[e.len() as int],
            acts.subrange(k, e.len() as int),
        ),
    decreases e.len() - k,
{
    let n = e.len() as int;
    if k < n {
        lemma_run_from(c, fs, acts, e, k + 1);
        let tail = e.subrange(k, n);
        assert(tail[0] == e[k]);
        assert(tail.subrange(1, tail.len() as int) =~= e.subrange(k + 1, n));
        assert(seq![acts[k]] + acts.subrange(k + 1, n) =~= acts.subrange(k, n));
    } else {
        assert(acts.subrange(k, n) =~= Seq::<ActionModel>::empty());
    }
}

} // verus!
