//! The files that hold what earlier runs wrote to their standard output and error.
//!
//! Output is appended to these files, so they are deleted before a run.
use vstd::prelude::*;

verus! {

/// A file with captured output.
#[derive(Debug, Clone, Copy, PartialEq, Eq, Structural)]
pub enum CaptureFile {
    Stdout,
    Stderr,
}

impl CaptureFile {
    /// Where the file is.
    pub fn path(&self) -> (path: &'static str)
        ensures
            path@ == match self {
                CaptureFile::Stdout => "./.stdout"@,
                CaptureFile::Stderr => "./.stderr"@,
            },
    {
        match self {
            CaptureFile::Stdout => "./.stdout",
            CaptureFile::Stderr => "./.stderr",
        }
    }
}

/// Where the cleanup stands.
#[derive(Debug, Clone, Copy, PartialEq, Eq, Structural)]
pub enum Cleanup {
    /// It is being looked whether the file exists.
    Checking(CaptureFile),
    /// The file is being removed.
    Removing(CaptureFile),
    /// Nothing is left to do.
    Finished,
}

/// How the last action went. `E` is an error of the file system.
#[derive(Debug)]
pub enum CleanupEvent<E> {
    Checked { exists: bool },
    Removed,
    Failed(E),
}

/// What to do next.
#[derive(Debug)]
pub enum CleanupAction<E> {
    /// Look whether the file exists.
    Check(CaptureFile),
    /// Remove the file.
    Remove(CaptureFile),
    /// Report success.
    Finish,
    /// Give up.
    Fail(E),
    /// Nothing: the event does not belong here.
    Ignore,
}

/// What follows when a file is out of the way.
pub open spec fn after_file<E>(file: CaptureFile) -> (Cleanup, CleanupAction<E>) {
    match file {
        CaptureFile::Stdout => (
            Cleanup::Checking(CaptureFile::Stderr),
            CleanupAction::Check(CaptureFile::Stderr),
        ),
        CaptureFile::Stderr => (Cleanup::Finished, CleanupAction::Finish),
    }
}

/// The next state and action.
pub open spec fn cleanup_step<E>(state: Cleanup, event: CleanupEvent<E>) -> (
    Cleanup,
    CleanupAction<E>,
) {
    match (state, event) {
        (Cleanup::Checking(file), CleanupEvent::Checked { exists }) => if exists {
            (Cleanup::Removing(file), CleanupAction::Remove(file))
        } else {
            after_file(file)
        },
        (Cleanup::Removing(file), CleanupEvent::Removed) => after_file(file),
        (Cleanup::Removing(_), CleanupEvent::Failed(e)) => (
            Cleanup::Finished,
            CleanupAction::Fail(e),
        ),
        (_, _) => (state, CleanupAction::Ignore),
    }
}

/// Begins to delete the files that hold the captured output of earlier runs.
pub fn cleanup_stdout_stderr<E>() -> (begun: (Cleanup, CleanupAction<E>))
    ensures
        begun.0 == Cleanup::Checking(CaptureFile::Stdout),
        begun.1 == CleanupAction::<E>::Check(CaptureFile::Stdout),
{
    (Cleanup::Checking(CaptureFile::Stdout), CleanupAction::Check(CaptureFile::Stdout))
}

impl Cleanup {
    /// Takes note of how the last action went and says what to do next.
    pub fn step<E>(self, event: CleanupEvent<E>) -> (next: (Cleanup, CleanupAction<E>))
        ensures
            next == cleanup_step(self, event),
    {
        match (self, event) {
            (Cleanup::Checking(file), CleanupEvent::Checked { exists }) => if exists {
                (Cleanup::Removing(file), CleanupAction::Remove(file))
            } else {
                Cleanup::after(file)
            },
            (Cleanup::Removing(file), CleanupEvent::Removed) => Cleanup::after(file),
            (Cleanup::Removing(_), CleanupEvent::Failed(e)) => (
                Cleanup::Finished,
                CleanupAction::Fail(e),
            ),
            (state, _) => (state, CleanupAction::Ignore),
        }
    }

    fn after<E>(file: CaptureFile) -> (next: (Cleanup, CleanupAction<E>))
        ensures
            next == after_file::<E>(file),
    {
        match file {
            CaptureFile::Stdout => (
                Cleanup::Checking(CaptureFile::Stderr),
                CleanupAction::Check(CaptureFile::Stderr),
            ),
            CaptureFile::Stderr => (Cleanup::Finished, CleanupAction::Finish),
        }
    }
}

/// The files after the action, and the reply of a file system without trouble. A file that does not
/// exist cannot be removed.
pub open spec fn perform<E>(files: Set<CaptureFile>, action: CleanupAction<E>, error: E) -> (
    Set<CaptureFile>,
    CleanupEvent<E>,
) {
    match action {
        CleanupAction::Check(file) => (
            files,
            CleanupEvent::Checked { exists: files.contains(file) },
        ),
        CleanupAction::Remove(file) => if files.contains(file) {
            (files.remove(file), CleanupEvent::Removed)
        } else {
            (files, CleanupEvent::Failed(error))
        },
        _ => (files, CleanupEvent::Removed),
    }
}

/// The action that is due and the files after `n` actions, each done and reported.
pub open spec fn carried_out<E>(
    state: Cleanup,
    action: CleanupAction<E>,
    files: Set<CaptureFile>,
    error: E,
    n: nat,
) -> (CleanupAction<E>, Set<CaptureFile>)
    decreases n,
{
    if n == 0 {
        (action, files)
    } else {
        let (after, event) = perform(files, action, error);
        let (next, due) = cleanup_step(state, event);
        carried_out(next, due, after, error, (n - 1) as nat)
    }
}

/// On a file system without trouble the cleanup succeeds and leaves neither file, whichever of
/// them existed.
pub proof fn law_cleanup_leaves_no_file<E>(files: Set<CaptureFile>, error: E)
    ensures
        ({
            let removed: nat = (if files.contains(CaptureFile::Stdout) {
                1nat
            } else {
                0
            }) + (if files.contains(CaptureFile::Stderr) {
                1nat
            } else {
                0
            });
            carried_out(
                Cleanup::Checking(CaptureFile::Stdout),
                CleanupAction::<E>::Check(CaptureFile::Stdout),
                files,
                error,
                removed + 2,
            ) == (CleanupAction::<E>::Finish, Set::<CaptureFile>::empty())
        }),
{
    reveal_with_fuel(carried_out, 5);
    let none = Set::<CaptureFile>::empty();
    assert(files.remove(CaptureFile::Stdout).remove(CaptureFile::Stderr) =~= none);
    if !files.contains(CaptureFile::Stdout) {
        assert(files.remove(CaptureFile::Stderr) =~= none);
    }
    if !files.contains(CaptureFile::Stderr) {
        assert(files.remove(CaptureFile::Stdout) =~= none);
    }
    if !files.contains(CaptureFile::Stdout) && !files.contains(CaptureFile::Stderr) {
        assert(files =~= none);
    }
}

/// A file is removed only where it was found to exist, and it is the file that was looked for. One
/// that does not exist, or that was removed, is out of the way: the standard error is looked for
/// after the standard output, and success is reported after the standard error.
pub proof fn law_cleanup_goes_from_file_to_file<E>(file: CaptureFile)
    ensures
        cleanup_step::<E>(Cleanup::Checking(file), CleanupEvent::Checked { exists: true }) == (
            Cleanup::Removing(file),
            CleanupAction::<E>::Remove(file),
        ),
        cleanup_step::<E>(
            Cleanup::Checking(CaptureFile::Stdout),
            CleanupEvent::Checked { exists: false },
        ) == (
            Cleanup::Checking(CaptureFile::Stderr),
            CleanupAction::<E>::Check(CaptureFile::Stderr),
        ),
        cleanup_step::<E>(
            Cleanup::Checking(CaptureFile::Stderr),
            CleanupEvent::Checked { exists: false },
        ) == (Cleanup::Finished, CleanupAction::<E>::Finish),
        cleanup_step::<E>(Cleanup::Removing(file), CleanupEvent::Removed) == cleanup_step::<E>(
            Cleanup::Checking(file),
            CleanupEvent::Checked { exists: false },
        ),
{
}

/// A file that cannot be removed ends the cleanup with the error of the file system, and what has
/// ended does nothing more. An event that does not belong to the state changes nothing.
pub proof fn law_cleanup_fails_with_the_error<E>(
    file: CaptureFile,
    error: E,
    state: Cleanup,
    event: CleanupEvent<E>,
)
    ensures
        cleanup_step(Cleanup::Removing(file), CleanupEvent::Failed(error)) == (
            Cleanup::Finished,
            CleanupAction::Fail(error),
        ),
        cleanup_step(Cleanup::Finished, event) == (Cleanup::Finished, CleanupAction::<E>::Ignore),
        ({
            let (next, action) = cleanup_step(state, event);
            &&& action is Ignore <==> !(state is Checking && event is Checked) && !(
            state is Removing && (event is Removed || event is Failed))
            &&& action is Ignore ==> next == state
            &&& action is Remove ==> state is Checking && event == (CleanupEvent::<E>::Checked {
                exists: true,
            })
        }),
{
}

} // verus!
