use vstd::prelude::*;
use crate::names::{generate_new_path, lemma_name_len, name_at, name_count, NameSearch};

verus! {

/// The next filesystem operation of an obliteration.
#[derive(Debug)]
pub enum ObliterationStep {
    /// Find out whether the sibling of `path` named `name` exists.
    Probe { path: String, name: String },
    /// Rename `from` to `to`.
    Rename { from: String, to: String },
    /// Remove the (empty) directory.
    Remove(String),
}

/// An `ObliterationStep` with its paths and names as character sequences.
pub enum StepModel {
    Probe { path: Seq<char>, name: Seq<char> },
    Rename { from: Seq<char>, to: Seq<char> },
    Remove(Seq<char>),
}

pub open spec fn step_view(s: ObliterationStep) -> StepModel {
    match s {
        ObliterationStep::Probe { path, name } => StepModel::Probe { path: path@, name: name@ },
        ObliterationStep::Rename { from, to } => StepModel::Rename { from: from@, to: to@ },
        ObliterationStep::Remove(p) => StepModel::Remove(p@),
    }
}

/// Where an obliteration stands.
pub enum PhaseModel {
    /// Probing the name at `pos` among those of `len` symbols.
    Seek { len: nat, pos: nat },
    /// Renaming to `to`, whose final component has `len` symbols.
    Move { len: nat, to: Seq<char> },
    /// Removing the directory.
    Remove,
}

/// An obliteration: the path the directory holds now, and its phase.
pub struct ObliterationModel {
    pub path: Seq<char>,
    pub phase: PhaseModel,
}

/// The start on a directory at `path` whose final component has `name_len` bytes.
pub open spec fn begin_model(path: Seq<char>, name_len: nat) -> (ObliterationModel, StepModel) {
    if name_len == 0 {
        (ObliterationModel { path, phase: PhaseModel::Remove }, StepModel::Remove(path))
    } else {
        (
            ObliterationModel { path, phase: PhaseModel::Seek { len: name_len, pos: 0 } },
            StepModel::Probe { path, name: name_at(0, name_len) },
        )
    }
}

/// The answer of a probe: a free name is renamed to; a taken one gives way to
/// the next candidate of its length, or, when there is none, to the removal.
pub open spec fn probe_model(m: ObliterationModel, sibling: Seq<char>, taken: bool) -> (
    ObliterationModel,
    StepModel,
) {
    match m.phase {
        PhaseModel::Seek { len, pos } => {
            if !taken {
                (
                    ObliterationModel { path: m.path, phase: PhaseModel::Move { len, to: sibling } },
                    StepModel::Rename { from: m.path, to: sibling },
                )
            } else if pos + 1 < name_count(len) {
                (
                    ObliterationModel { path: m.path, phase: PhaseModel::Seek { len, pos: pos + 1 } },
                    StepModel::Probe { path: m.path, name: name_at(pos + 1, len) },
                )
            } else {
                (ObliterationModel { path: m.path, phase: PhaseModel::Remove }, StepModel::Remove(m.path))
            }
        },
        _ => (m, StepModel::Remove(m.path)),
    }
}

/// A rename is done: the directory holds the new path, and the search goes on
/// one symbol shorter, or the removal follows a name of one symbol.
pub open spec fn renamed_model(m: ObliterationModel) -> (ObliterationModel, StepModel) {
    match m.phase {
        PhaseModel::Move { len, to } => {
            if len > 1 {
                (
                    ObliterationModel {
                        path: to,
                        phase: PhaseModel::Seek { len: (len - 1) as nat, pos: 0 },
                    },
                    StepModel::Probe { path: to, name: name_at(0, (len - 1) as nat) },
                )
            } else {
                (ObliterationModel { path: to, phase: PhaseModel::Remove }, StepModel::Remove(to))
            }
        },
        _ => (m, StepModel::Remove(m.path)),
    }
}

enum Phase {
    /// Looking for a free name of `len` symbols.
    Seek { len: usize, search: NameSearch },
    /// A rename to `to`, whose final component is `name`, is under way.
    Move { len: usize, to: String, name: String },
    /// Renaming is over; the directory is being removed.
    Remove,
}

/// An empty directory on its way out: renamed through ever shorter unused
/// names, then removed.
pub struct Obliteration {
    path: String,
    phase: Phase,
    name_len: Ghost<nat>,
    trail: Ghost<Seq<Seq<char>>>,
    names: Ghost<Seq<Seq<char>>>,
}

impl Obliteration {
    /// Where the obliteration stands.
    pub closed spec fn model(&self) -> ObliterationModel {
        ObliterationModel {
            path: self.path@,
            phase: match self.phase {
                Phase::Seek { len, search } => PhaseModel::Seek { len: len as nat, pos: search.pos() },
                Phase::Move { len, to, .. } => PhaseModel::Move { len: len as nat, to: to@ },
                Phase::Remove => PhaseModel::Remove,
            },
        }
    }

    /// The path that the directory has now.
    pub closed spec fn path(&self) -> Seq<char> {
        self.path@
    }

    /// Length of the directory's final component when it started.
    pub closed spec fn name_len(&self) -> nat {
        self.name_len@
    }

    /// Every path the directory has had, the first one first.
    pub closed spec fn trail(&self) -> Seq<Seq<char>> {
        self.trail@
    }

    /// The names it was renamed to, in order.
    pub closed spec fn names(&self) -> Seq<Seq<char>> {
        self.names@
    }

    /// Whether the final removal has been asked for.
    pub closed spec fn is_removing(&self) -> bool {
        self.phase is Remove
    }

    /// Whether a rename has been asked for and not yet reported done.
    pub closed spec fn is_moving(&self) -> bool {
        self.phase is Move
    }

    /// Whether a candidate name is being probed.
    pub closed spec fn is_seeking(&self) -> bool {
        self.phase is Seek
    }

    /// Length of the names sought now.
    pub closed spec fn seek_len(&self) -> nat {
        match self.phase {
            Phase::Seek { len, .. } => len as nat,
            Phase::Move { len, .. } => len as nat,
            Phase::Remove => 0,
        }
    }

    /// Position of the candidate probed now, in the enumeration of its length.
    pub closed spec fn seek_pos(&self) -> nat {
        match self.phase {
            Phase::Seek { search, .. } => search.pos(),
            _ => 0,
        }
    }

    /// The path that a rename under way leads to.
    pub closed spec fn target(&self) -> Seq<char> {
        match self.phase {
            Phase::Move { to, .. } => to@,
            _ => Seq::empty(),
        }
    }

    pub closed spec fn wf(&self) -> bool {
        &&& self.trail@.len() >= 1
        &&& self.trail@.last() == self.path@
        &&& self.names@.len() + 1 == self.trail@.len()
        &&& self.names@.len() <= self.name_len@
        &&& forall|i: int|
            0 <= i < self.names@.len() ==> (#[trigger] self.names@[i]).len() == self.name_len@ - i
        &&& match self.phase {
            Phase::Seek { len, search } => {
                &&& search.wf()
                &&& search.len() == len
                &&& len >= 1
                &&& len == self.name_len@ - self.names@.len()
                &&& search.pos() < name_count(len as nat)
            },
            Phase::Move { len, name, .. } => {
                &&& len >= 1
                &&& len == self.name_len@ - self.names@.len()
                &&& name@.len() == len
            },
            Phase::Remove => true,
        }
    }

    /// The path that the directory has now.
    pub fn current_path(&self) -> (r: &String)
        ensures
            r@ == self.path(),
            r@ == self.model().path,
    {
        &self.path
    }

    /// Whether a candidate name is being probed.
    pub fn seeking(&self) -> (r: bool)
        ensures
            r == self.is_seeking(),
            r == self.model().phase is Seek,
    {
        match self.phase {
            Phase::Seek { .. } => true,
            _ => false,
        }
    }

    /// An obliteration is always seeking, moving or removing.
    pub proof fn lemma_phases(&self)
        ensures
            self.is_seeking() || self.is_moving() || self.is_removing(),
            self.is_seeking() == self.model().phase is Seek,
            self.is_moving() == self.model().phase is Move,
            self.is_removing() == self.model().phase is Remove,
    {
    }

    /// Whether the final removal has been asked for.
    pub fn removing(&self) -> (r: bool)
        ensures
            r == self.is_removing(),
            r == self.model().phase is Remove,
    {
        match self.phase {
            Phase::Remove => true,
            _ => false,
        }
    }

    /// The step that a seek for names of `len` symbols, from the first one, starts with.
    fn seek(&mut self, len: usize) -> (r: ObliterationStep)
        requires
            len >= 1,
            old(self).trail@.len() >= 1,
            old(self).trail@.last() == old(self).path@,
            old(self).names@.len() + 1 == old(self).trail@.len(),
            old(self).names@.len() <= old(self).name_len@,
            forall|i: int|
                0 <= i < old(self).names@.len() ==> (#[trigger] old(self).names@[i]).len()
                    == old(self).name_len@ - i,
            len == old(self).name_len@ - old(self).names@.len(),
        ensures
            final(self).wf(),
            final(self).is_seeking(),
            final(self).path() == old(self).path@,
            final(self).trail() == old(self).trail@,
            final(self).names() == old(self).names@,
            final(self).name_len() == old(self).name_len@,
            final(self).seek_len() == len,
            final(self).seek_pos() == 0,
            final(self).model() == begin_model(old(self).path@, len as nat).0,
            step_view(r) == begin_model(old(self).path@, len as nat).1,
            r matches ObliterationStep::Probe { path, name } && path@ == old(self).path@
                && name@ == name_at(0, len as nat),
    {
        let search = NameSearch::new(len);
        let name = match generate_new_path(&search) {
            Some(n) => n,
            None => {
                proof {
                    assert(name_count(len as nat) >= 1) by {
                        lemma_count_positive(len as nat);
                    }
                }
                return ObliterationStep::Remove(self.path.clone());
            },
        };
        proof {
            lemma_count_positive(len as nat);
        }
        self.phase = Phase::Seek { len, search };
        ObliterationStep::Probe { path: self.path.clone(), name }
    }

    /// Starts on the directory at `path`, whose final component is `name_len`
    /// bytes long: a probe for the first name of that length, or at once the
    /// removal when it has no final component.
    pub fn begin(path: String, name_len: usize) -> (r: (Obliteration, ObliterationStep))
        ensures
            r.0.wf(),
            r.0.path() == path@,
            r.0.trail() == seq![path@],
            r.0.names().len() == 0,
            r.0.name_len() == name_len,
            (r.0.model(), step_view(r.1)) == begin_model(path@, name_len as nat),
            name_len == 0 ==> {
                &&& r.0.is_removing()
                &&& r.1 matches ObliterationStep::Remove(p)
                &&& p@ == path@
            },
            name_len > 0 ==> {
                &&& r.0.is_seeking()
                &&& r.0.seek_len() == name_len
                &&& r.0.seek_pos() == 0
                &&& r.1 matches ObliterationStep::Probe { path: p, name }
                &&& p@ == path@
                &&& name@ == name_at(0, name_len as nat)
            },
    {
        let ghost trail = seq![path@];
        let ghost names = Seq::<Seq<char>>::empty();
        let mut o = Obliteration {
            path,
            phase: Phase::Remove,
            name_len: Ghost(name_len as nat),
            trail: Ghost(trail),
            names: Ghost(names),
        };
        if name_len == 0 {
            let p = o.path.clone();
            return (o, ObliterationStep::Remove(p));
        }
        let step = o.seek(name_len);
        (o, step)
    }

    /// Takes the answer of a probe: the sibling's path, and whether it exists.
    /// A free name is renamed to; a taken one gives way to the next candidate
    /// of the same length, and when there is none renaming stops and the
    /// directory is removed under the name it holds.
    pub fn on_probe(&mut self, sibling: String, taken: bool) -> (r: ObliterationStep)
        requires
            old(self).wf(),
            old(self).is_seeking(),
        ensures
            final(self).wf(),
            final(self).path() == old(self).path(),
            final(self).trail() == old(self).trail(),
            final(self).names() == old(self).names(),
            final(self).name_len() == old(self).name_len(),
            !taken ==> {
                &&& final(self).is_moving()
                &&& final(self).seek_len() == old(self).seek_len()
                &&& final(self).target() == sibling@
                &&& r matches ObliterationStep::Rename { from, to }
                &&& from@ == old(self).path()
                &&& to@ == sibling@
            },
            taken ==> r is Probe || r is Remove,
            (final(self).model(), step_view(r)) == probe_model(old(self).model(), sibling@, taken),
            taken && old(self).seek_pos() + 1 < name_count(old(self).seek_len()) ==> {
                &&& final(self).is_seeking()
                &&& final(self).seek_len() == old(self).seek_len()
                &&& final(self).seek_pos() == old(self).seek_pos() + 1
                &&& r matches ObliterationStep::Probe { path, name }
                &&& path@ == old(self).path()
                &&& name@ == name_at((old(self).seek_pos() + 1) as nat, old(self).seek_len())
            },
            taken && old(self).seek_pos() + 1 == name_count(old(self).seek_len()) ==> {
                &&& final(self).is_removing()
                &&& r matches ObliterationStep::Remove(p)
                &&& p@ == old(self).path()
            },
    {
        match &self.phase {
            Phase::Seek { len, search } => {
                let len = *len;
                let mut search = search.copy();
                if !taken {
                    let name = match generate_new_path(&search) {
                        Some(n) => n,
                        None => {
                            return ObliterationStep::Remove(self.path.clone());
                        },
                    };
                    proof {
                        lemma_name_len(search.pos(), len as nat);
                    }
                    let to = sibling.clone();
                    self.phase = Phase::Move { len, to, name };
                    return ObliterationStep::Rename { from: self.path.clone(), to: sibling };
                }
                search.skip();
                match generate_new_path(&search) {
                    Some(name) => {
                        self.phase = Phase::Seek { len, search };
                        ObliterationStep::Probe { path: self.path.clone(), name }
                    },
                    None => {
                        self.phase = Phase::Remove;
                        ObliterationStep::Remove(self.path.clone())
                    },
                }
            },
            _ => ObliterationStep::Remove(self.path.clone()),
        }
    }

    /// Takes the report that the rename under way is done: the directory now
    /// holds the new path, and the search goes on one symbol shorter, or ends
    /// in the removal after a name of one symbol.
    pub fn on_renamed(&mut self) -> (r: ObliterationStep)
        requires
            old(self).wf(),
            old(self).is_moving(),
        ensures
            final(self).wf(),
            final(self).path() == old(self).target(),
            final(self).trail() == old(self).trail().push(old(self).target()),
            final(self).names().len() == old(self).names().len() + 1,
            final(self).names().last().len() == old(self).seek_len(),
            (final(self).model(), step_view(r)) == renamed_model(old(self).model()),
            final(self).name_len() == old(self).name_len(),
            old(self).seek_len() > 1 ==> {
                &&& final(self).is_seeking()
                &&& final(self).seek_len() + 1 == old(self).seek_len()
                &&& final(self).seek_pos() == 0
                &&& r matches ObliterationStep::Probe { path, name }
                &&& path@ == old(self).target()
                &&& name@ == name_at(0, (old(self).seek_len() - 1) as nat)
            },
            old(self).seek_len() == 1 ==> {
                &&& final(self).is_removing()
                &&& r matches ObliterationStep::Remove(p)
                &&& p@ == old(self).target()
            },
    {
        match &self.phase {
            Phase::Move { len, to, name } => {
                let len = *len;
                let to = to.clone();
                let name = name.clone();
                self.path = to;
                let ghost trail = self.trail@.push(self.path@);
                let ghost names = self.names@.push(name@);
                self.trail = Ghost(trail);
                self.names = Ghost(names);
                if len == 1 {
                    self.phase = Phase::Remove;
                    return ObliterationStep::Remove(self.path.clone());
                }
                self.seek(len - 1)
            },
            _ => ObliterationStep::Remove(self.path.clone()),
        }
    }
}

/// Along the rename chain of a directory each new name is strictly shorter
/// than the one before, none is empty, and the `i`-th (from 0) has exactly
/// `i` symbols fewer than the name the directory started with.
pub proof fn lemma_rename_chain_shrinks(o: &Obliteration)
    requires
        o.wf(),
    ensures
        forall|i: int, j: int|
            0 <= i < j < o.names().len() ==> (#[trigger] o.names()[j]).len() < (
            #[trigger] o.names()[i]).len(),
        forall|i: int|
            0 <= i < o.names().len() ==> 1 <= (#[trigger] o.names()[i]).len() <= o.name_len(),
        forall|i: int|
            0 <= i < o.names().len() ==> (#[trigger] o.names()[i]).len() == o.name_len() - i,
{
}

/// The paths a directory held on its way out form a chain: one more than the
/// renames made, and ending at the path it holds now, which is the one the
/// final removal is asked for. Every earlier path was left by a rename, so
/// once the removal is done none of them is left.
pub proof fn lemma_trail_ends_at_removal(o: &Obliteration)
    requires
        o.wf(),
    ensures
        o.trail().len() == o.names().len() + 1,
        o.trail().last() == o.path(),
        o.names().len() <= o.name_len(),
{
}

proof fn lemma_count_positive(len: nat)
    ensures
        name_count(len) >= 1,
    decreases len,
{
    if len > 0 {
        lemma_count_positive((len - 1) as nat);
    }
}

} // verus!
