//! Materializing an entry: the decisions that make sure the entry file and
//! its directories exist, creating them at most once and never touching an
//! existing file. The caller performs each filesystem action and reports the
//! outcome back.
use vstd::prelude::*;

verus! {

/// How an entry came to exist.
#[derive(Clone, Copy, Debug, PartialEq, Eq, Structural)]
pub enum Materialized {
    /// This run created the entry file.
    Created,
    /// The entry file was already there and was left untouched.
    AlreadyExisted,
}

/// Where materializing an entry stands, and so which action comes next.
#[derive(Debug)]
pub enum Step {
    /// Check whether the entry file exists.
    CheckExists,
    /// Create the entry's directory and all missing parents.
    CreateDirectories,
    /// Create the entry file, empty, failing if it already exists.
    CreateFile,
    /// Finished: the entry exists.
    Done(Materialized),
    /// Finished: the filesystem refused an action, for the given cause.
    Failed(String),
}

/// What the filesystem reported for the last action.
#[derive(Debug)]
pub enum Reply {
    /// The result of an existence check.
    Exists(bool),
    /// The action succeeded.
    Succeeded,
    /// The action found its target already present.
    AlreadyPresent,
    /// The action failed, for the given cause.
    Error(String),
}

impl Step {
    /// The step has no further action.
    pub open spec fn is_finished(&self) -> bool {
        self is Done || self is Failed
    }
}

/// The step that follows `step` once the filesystem has replied `reply`.
pub open spec fn next_step_spec(step: Step, reply: Reply) -> Step {
    match step {
        Step::CheckExists => match reply {
            Reply::Exists(true) => Step::Done(Materialized::AlreadyExisted),
            Reply::Exists(false) => Step::CreateDirectories,
            Reply::Error(cause) => Step::Failed(cause),
            _ => Step::CheckExists,
        },
        Step::CreateDirectories => match reply {
            Reply::Succeeded => Step::CreateFile,
            Reply::AlreadyPresent => Step::CreateFile,
            Reply::Error(cause) => Step::Failed(cause),
            _ => Step::CreateDirectories,
        },
        Step::CreateFile => match reply {
            Reply::Succeeded => Step::Done(Materialized::Created),
            Reply::AlreadyPresent => Step::Done(Materialized::AlreadyExisted),
            Reply::Error(cause) => Step::Failed(cause),
            _ => Step::CreateFile,
        },
        _ => step,
    }
}

/// The first step of materializing an entry.
pub fn first_step() -> (r: Step)
    ensures
        r is CheckExists,
{
    Step::CheckExists
}

/// The step after `step` given the filesystem's `reply`. An existing entry
/// ends the work at once; directories or a file that appear meanwhile count
/// as success; any error ends it with that error. A reply that does not fit
/// the action leaves the step as it was, so the action is asked again.
pub fn next_step(step: Step, reply: Reply) -> (r: Step)
    ensures
        r == next_step_spec(step, reply),
{
    match step {
        Step::CheckExists => match reply {
            Reply::Exists(true) => Step::Done(Materialized::AlreadyExisted),
            Reply::Exists(false) => Step::CreateDirectories,
            Reply::Error(cause) => Step::Failed(cause),
            _ => Step::CheckExists,
        },
        Step::CreateDirectories => match reply {
            Reply::Succeeded => Step::CreateFile,
            Reply::AlreadyPresent => Step::CreateFile,
            Reply::Error(cause) => Step::Failed(cause),
            _ => Step::CreateDirectories,
        },
        Step::CreateFile => match reply {
            Reply::Succeeded => Step::Done(Materialized::Created),
            Reply::AlreadyPresent => Step::Done(Materialized::AlreadyExisted),
            Reply::Error(cause) => Step::Failed(cause),
            _ => Step::CreateFile,
        },
        _ => step,
    }
}

/// A filesystem as far as entries are concerned: file contents by path, and
/// the directories that exist.
pub struct FsModel {
    pub files: Map<Seq<char>, Seq<u8>>,
    pub dirs: Set<Seq<char>>,
}

/// How a filesystem that never fails carries out the action of `step` on the
/// entry `path` in the directory `dir`.
pub open spec fn perform(fs: FsModel, step: Step, dir: Seq<char>, path: Seq<char>) -> (
    FsModel,
    Reply,
) {
    match step {
        Step::CheckExists => (fs, Reply::Exists(fs.files.contains_key(path))),
        Step::CreateDirectories => (
            FsModel { files: fs.files, dirs: fs.dirs.insert(dir) },
            Reply::Succeeded,
        ),
        Step::CreateFile => if fs.files.contains_key(path) {
            (fs, Reply::AlreadyPresent)
        } else {
            (FsModel { files: fs.files.insert(path, Seq::empty()), dirs: fs.dirs }, Reply::Succeeded)
        },
        _ => (fs, Reply::Succeeded),
    }
}

/// Runs at most `fuel` steps from `step` against such a filesystem.
pub open spec fn run(fs: FsModel, step: Step, dir: Seq<char>, path: Seq<char>, fuel: nat) -> (
    FsModel,
    Step,
)
    decreases fuel,
{
    if fuel == 0 || step.is_finished() {
        (fs, step)
    } else {
        let (fs2, reply) = perform(fs, step, dir, path);
        run(fs2, next_step_spec(step, reply), dir, path, (fuel - 1) as nat)
    }
}

/// Materializing the entry `path` in `dir` from the first step.
pub open spec fn materialize(fs: FsModel, dir: Seq<char>, path: Seq<char>) -> (FsModel, Step) {
    run(fs, Step::CheckExists, dir, path, 3)
}

/// Materializing an entry finishes with the entry in place: an existing entry
/// is left as it is and reported as already existing; a missing one is
/// created empty, with its directory, and reported as created. A second run
/// right after the first changes nothing and reports the entry as already
/// existing.
pub proof fn lemma_materialize_idempotent(fs: FsModel, dir: Seq<char>, path: Seq<char>)
    ensures
        ({
            let (fs1, s1) = materialize(fs, dir, path);
            let (fs2, s2) = materialize(fs1, dir, path);
            &&& fs.files.contains_key(path) ==> fs1 == fs && s1 == Step::Done(
                Materialized::AlreadyExisted,
            )
            &&& !fs.files.contains_key(path) ==> {
                &&& s1 == Step::Done(Materialized::Created)
                &&& fs1.files == fs.files.insert(path, Seq::empty())
                &&& fs1.dirs == fs.dirs.insert(dir)
            }
            &&& fs2 == fs1
            &&& s2 == Step::Done(Materialized::AlreadyExisted)
        }),
{
    reveal_with_fuel(run, 4);
    let (fs1, s1) = materialize(fs, dir, path);
    assert(fs1.files.contains_key(path));
}

} // verus!
