use cardamon::capture::{CaptureFile, Cleanup, CleanupAction, CleanupEvent};
use cardamon::cleanup_stdout_stderr;

/// Runs the cleanup on the given files and returns what was removed, and the files that are left.
fn clean(mut files: Vec<&'static str>) -> (Vec<&'static str>, Vec<&'static str>) {
    let mut removed: Vec<&'static str> = vec![];
    let (mut state, mut action): (Cleanup, CleanupAction<()>) = cleanup_stdout_stderr();
    loop {
        let event = match action {
            CleanupAction::Check(file) => CleanupEvent::Checked {
                exists: files.contains(&file.path()),
            },
            CleanupAction::Remove(file) => {
                files.retain(|f| *f != file.path());
                removed.push(file.path());
                CleanupEvent::Removed
            }
            CleanupAction::Finish => return (removed, files),
            other => panic!("{:?}", other),
        };
        let next = state.step(event);
        state = next.0;
        action = next.1;
    }
}

#[test]
fn cleanup_removes_what_exists() {
    assert_eq!(
        clean(vec!["./.stderr", "./.stdout", "./other"]),
        (vec!["./.stdout", "./.stderr"], vec!["./other"])
    );
    assert_eq!(clean(vec!["./.stderr"]), (vec!["./.stderr"], vec![]));
    assert_eq!(clean(vec!["./.stdout"]), (vec!["./.stdout"], vec![]));
    assert_eq!(clean(vec![]), (vec![], vec![]));
}

#[test]
fn failed_removal_ends_the_cleanup() {
    let (state, _): (Cleanup, CleanupAction<&str>) = cleanup_stdout_stderr();
    let (state, action): (_, CleanupAction<&str>) =
        state.step(CleanupEvent::Checked { exists: true });
    assert!(matches!(action, CleanupAction::Remove(CaptureFile::Stdout)));
    let (state, action) = state.step(CleanupEvent::Failed("denied"));
    assert!(matches!(action, CleanupAction::Fail("denied")));
    let (_, action): (_, CleanupAction<&str>) = state.step(CleanupEvent::Removed);
    assert!(matches!(action, CleanupAction::Ignore));
}
