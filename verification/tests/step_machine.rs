use distinst::installer::{Action, Cause, Error, ErrorKind, Event, Installer, Notice, Phase, Status, Step};

fn ok() -> Event {
    Event::Done(Ok(()))
}

fn failed(message: &str) -> Event {
    Event::Done(Err(Cause::new(ErrorKind::Other, message)))
}

fn synced() -> Event {
    Event::Synced { cancelled: false }
}

fn cancelled() -> Event {
    Event::Synced { cancelled: true }
}

fn begin(installer: &mut Installer, retain: bool, dry_run: bool) {
    assert_eq!(installer.install(Event::Begin { retain, dry_run }), Action::Validate);
    assert_eq!(installer.install(ok()), Action::Sync);
}

/// Runs the step that the installer waits for at a boundary, to success.
fn run_step(installer: &mut Installer, step: Step) -> Action {
    assert_eq!(installer.install(synced()), Action::Run(step));
    installer.install(ok())
}

fn statuses(notices: &[Notice]) -> Vec<(Step, i32)> {
    notices
        .iter()
        .filter_map(|n| match n {
            Notice::Status(s) => Some((s.step, s.percent)),
            Notice::Error(_) => None,
        })
        .collect()
}

fn errors(notices: &[Notice]) -> Vec<(Step, String)> {
    notices
        .iter()
        .filter_map(|n| match n {
            Notice::Error(e) => Some((e.step, e.err.message.clone())),
            Notice::Status(_) => None,
        })
        .collect()
}

#[test]
fn a_new_installer_is_idle_and_has_no_outcome() {
    let mut installer = Installer::default();
    assert_eq!(installer.phase(), Phase::Idle);
    assert!(installer.outcome().is_none());
    assert_eq!(installer.steps_completed(), 0);
    assert_eq!(installer.status(), Status { step: Step::Init, percent: 0 });
    assert!(installer.take_notices().is_empty());
}

#[test]
fn a_full_run_goes_through_the_steps_in_order() {
    let mut installer = Installer::default();
    installer.on_status();
    installer.on_error();
    begin(&mut installer, false, false);
    assert_eq!(run_step(&mut installer, Step::Init), Action::Sync);
    assert_eq!(run_step(&mut installer, Step::Partition), Action::CreateWorkDir);
    assert_eq!(installer.install(ok()), Action::MountTargets);
    assert_eq!(installer.install(ok()), Action::Sync);
    assert_eq!(run_step(&mut installer, Step::Extract), Action::Sync);
    assert_eq!(run_step(&mut installer, Step::Configure), Action::Sync);
    assert_eq!(run_step(&mut installer, Step::Bootloader), Action::UnmountAll);
    assert_eq!(installer.steps_completed(), 5);
    assert_eq!(installer.install(ok()), Action::RemoveWorkDir);
    assert_eq!(installer.install(ok()), Action::DeactivateLogical);
    assert!(installer.outcome().is_none());
    assert_eq!(installer.install(ok()), Action::Finish);
    assert_eq!(installer.phase(), Phase::Finished);
    assert!(matches!(installer.outcome(), Some(Ok(()))));
    let notices = installer.take_notices();
    assert_eq!(
        statuses(&notices),
        vec![
            (Step::Init, 0),
            (Step::Partition, 0),
            (Step::Extract, 0),
            (Step::Configure, 0),
            (Step::Bootloader, 0)
        ]
    );
    assert!(errors(&notices).is_empty());
    assert_eq!(installer.install(ok()), Action::Finish);
}

#[test]
fn progress_is_reported_for_the_step_at_work() {
    let mut installer = Installer::default();
    installer.on_status();
    begin(&mut installer, false, false);
    assert_eq!(installer.install(synced()), Action::Run(Step::Init));
    assert_eq!(installer.install(Event::Progress(40)), Action::Continue);
    assert_eq!(installer.install(Event::Progress(100)), Action::Continue);
    assert_eq!(installer.status(), Status { step: Step::Init, percent: 100 });
    let notices = installer.take_notices();
    assert_eq!(statuses(&notices), vec![(Step::Init, 0), (Step::Init, 40), (Step::Init, 100)]);
    assert!(installer.take_notices().is_empty());
}

#[test]
fn nothing_is_kept_where_nobody_listens() {
    let mut installer = Installer::default();
    begin(&mut installer, false, false);
    assert_eq!(installer.install(synced()), Action::Run(Step::Init));
    assert_eq!(installer.install(Event::Progress(40)), Action::Continue);
    assert_eq!(installer.install(failed("boom")), Action::Finish);
    assert!(installer.take_notices().is_empty());
}

#[test]
fn no_step_runs_after_a_step_has_failed() {
    let mut installer = Installer::default();
    installer.on_status();
    installer.on_error();
    begin(&mut installer, false, false);
    assert_eq!(run_step(&mut installer, Step::Init), Action::Sync);
    assert_eq!(installer.install(synced()), Action::Run(Step::Partition));
    assert_eq!(installer.install(Event::Progress(30)), Action::Continue);
    assert_eq!(installer.install(failed("commit failed")), Action::Finish);
    assert_eq!(installer.phase(), Phase::Finished);
    assert_eq!(installer.steps_completed(), 1);
    for event in [synced(), ok(), Event::Progress(1), Event::Begin { retain: false, dry_run: false }] {
        assert_eq!(installer.install(event), Action::Finish);
    }
    match installer.outcome() {
        Some(Err(cause)) => {
            assert_eq!(cause.kind, ErrorKind::Other);
            assert_eq!(cause.message, "commit failed");
        }
        other => panic!("the run did not fail: {:?}", other),
    }
    let notices = installer.take_notices();
    assert_eq!(errors(&notices), vec![(Step::Partition, "commit failed".to_string())]);
    assert_eq!(statuses(&notices), vec![(Step::Init, 0), (Step::Partition, 0), (Step::Partition, 30)]);
    assert!(matches!(notices.last(), Some(Notice::Error(_))));
}

#[test]
fn a_failure_with_targets_mounted_cleans_up_before_it_finishes() {
    let mut installer = Installer::default();
    installer.on_error();
    begin(&mut installer, true, false);
    assert_eq!(run_step(&mut installer, Step::Init), Action::Sync);
    assert_eq!(run_step(&mut installer, Step::Partition), Action::CreateWorkDir);
    assert_eq!(installer.install(ok()), Action::MountTargets);
    assert_eq!(installer.install(ok()), Action::Sync);
    assert_eq!(run_step(&mut installer, Step::Extract), Action::Sync);
    assert_eq!(installer.install(synced()), Action::Run(Step::Configure));
    assert_eq!(installer.install(failed("configure.sh failed with status: exit status: 1")), Action::UnmountAll);
    // A failure of the cleanup does not take the place of the first failure.
    assert_eq!(installer.install(failed("busy")), Action::RemoveWorkDir);
    assert_eq!(installer.install(ok()), Action::Finish);
    match installer.outcome() {
        Some(Err(cause)) => assert_eq!(cause.message, "configure.sh failed with status: exit status: 1"),
        other => panic!("the run did not fail: {:?}", other),
    }
    assert_eq!(installer.steps_completed(), 3);
    let notices = installer.take_notices();
    assert_eq!(
        errors(&notices),
        vec![(Step::Configure, "configure.sh failed with status: exit status: 1".to_string())]
    );
}

#[test]
fn cancellation_before_a_step_interrupts_without_running_it() {
    let mut installer = Installer::default();
    installer.on_status();
    installer.on_error();
    begin(&mut installer, false, false);
    assert_eq!(run_step(&mut installer, Step::Init), Action::Sync);
    let reported = installer.take_notices().len();
    assert_eq!(reported, 1);
    assert_eq!(installer.install(cancelled()), Action::Finish);
    assert_eq!(installer.steps_completed(), 1);
    match installer.outcome() {
        Some(Err(cause)) => {
            assert_eq!(cause.kind, ErrorKind::Interrupted);
            assert_eq!(cause.message, "process killed");
        }
        other => panic!("the run was not interrupted: {:?}", other),
    }
    // Neither a status nor an error is reported for the step that was not run.
    assert!(installer.take_notices().is_empty());
    assert_eq!(installer.install(synced()), Action::Finish);
}

#[test]
fn cancellation_before_the_first_step_runs_nothing() {
    let mut installer = Installer::default();
    installer.on_status();
    begin(&mut installer, false, false);
    assert_eq!(installer.install(cancelled()), Action::Finish);
    assert_eq!(installer.steps_completed(), 0);
    assert!(installer.take_notices().is_empty());
    assert!(matches!(installer.outcome(), Some(Err(_))));
}

#[test]
fn cancellation_with_targets_mounted_releases_them_first() {
    let mut installer = Installer::default();
    begin(&mut installer, false, false);
    assert_eq!(run_step(&mut installer, Step::Init), Action::Sync);
    assert_eq!(run_step(&mut installer, Step::Partition), Action::CreateWorkDir);
    assert_eq!(installer.install(ok()), Action::MountTargets);
    assert_eq!(installer.install(ok()), Action::Sync);
    assert_eq!(installer.install(cancelled()), Action::UnmountAll);
    assert_eq!(installer.install(ok()), Action::RemoveWorkDir);
    assert_eq!(installer.install(ok()), Action::Finish);
    assert_eq!(installer.steps_completed(), 2);
    match installer.outcome() {
        Some(Err(cause)) => assert_eq!(cause.kind, ErrorKind::Interrupted),
        other => panic!("the run was not interrupted: {:?}", other),
    }
}

#[test]
fn a_failed_validation_ends_the_run_before_any_step() {
    let mut installer = Installer::default();
    installer.on_error();
    assert_eq!(installer.install(Event::Begin { retain: true, dry_run: false }), Action::Validate);
    let refusal = Cause::new(ErrorKind::InvalidInput, "hostname is not valid");
    assert_eq!(installer.install(Event::Done(Err(refusal))), Action::Finish);
    assert_eq!(installer.steps_completed(), 0);
    match installer.outcome() {
        Some(Err(cause)) => {
            assert_eq!(cause.kind, ErrorKind::InvalidInput);
            assert_eq!(cause.message, "hostname is not valid");
        }
        other => panic!("the run did not fail: {:?}", other),
    }
    assert!(installer.take_notices().is_empty());
}

#[test]
fn a_dry_run_ends_once_the_targets_are_mounted() {
    let mut installer = Installer::default();
    begin(&mut installer, false, true);
    assert_eq!(run_step(&mut installer, Step::Init), Action::Sync);
    assert_eq!(run_step(&mut installer, Step::Partition), Action::CreateWorkDir);
    assert_eq!(installer.install(ok()), Action::MountTargets);
    assert_eq!(installer.install(ok()), Action::UnmountAll);
    // What fails while a dry run cleans up is passed over.
    assert_eq!(installer.install(failed("busy")), Action::RemoveWorkDir);
    assert_eq!(installer.install(ok()), Action::Finish);
    assert!(matches!(installer.outcome(), Some(Ok(()))));
    assert_eq!(installer.steps_completed(), 2);
}

#[test]
fn a_failure_to_mount_releases_what_was_mounted() {
    let mut installer = Installer::default();
    installer.on_error();
    begin(&mut installer, false, false);
    assert_eq!(run_step(&mut installer, Step::Init), Action::Sync);
    assert_eq!(run_step(&mut installer, Step::Partition), Action::CreateWorkDir);
    assert_eq!(installer.install(ok()), Action::MountTargets);
    assert_eq!(installer.install(failed("mount failed")), Action::UnmountAll);
    assert_eq!(installer.install(ok()), Action::RemoveWorkDir);
    assert_eq!(installer.install(ok()), Action::Finish);
    match installer.outcome() {
        Some(Err(cause)) => assert_eq!(cause.message, "mount failed"),
        other => panic!("the run did not fail: {:?}", other),
    }
    // Only the failure of a step is reported to the listener.
    assert!(installer.take_notices().is_empty());
}

#[test]
fn a_failure_to_make_the_working_directory_ends_the_run() {
    let mut installer = Installer::default();
    begin(&mut installer, false, false);
    assert_eq!(run_step(&mut installer, Step::Init), Action::Sync);
    assert_eq!(run_step(&mut installer, Step::Partition), Action::CreateWorkDir);
    assert_eq!(installer.install(failed("no space")), Action::Finish);
    assert!(matches!(installer.outcome(), Some(Err(_))));
}

fn through_bootloader(retain: bool) -> Installer {
    let mut installer = Installer::default();
    begin(&mut installer, retain, false);
    assert_eq!(run_step(&mut installer, Step::Init), Action::Sync);
    assert_eq!(run_step(&mut installer, Step::Partition), Action::CreateWorkDir);
    assert_eq!(installer.install(ok()), Action::MountTargets);
    assert_eq!(installer.install(ok()), Action::Sync);
    assert_eq!(run_step(&mut installer, Step::Extract), Action::Sync);
    assert_eq!(run_step(&mut installer, Step::Configure), Action::Sync);
    assert_eq!(run_step(&mut installer, Step::Bootloader), Action::UnmountAll);
    installer
}

#[test]
fn the_home_that_was_kept_is_put_back_after_the_cleanup() {
    let mut installer = through_bootloader(true);
    assert_eq!(installer.install(ok()), Action::RemoveWorkDir);
    assert_eq!(installer.install(ok()), Action::RestoreBackup);
    assert_eq!(installer.install(ok()), Action::DeactivateLogical);
    // The last shutting down is best effort: its failure is not the run's.
    assert_eq!(installer.install(failed("still active")), Action::Finish);
    assert!(matches!(installer.outcome(), Some(Ok(()))));
}

#[test]
fn a_failure_to_put_the_home_back_fails_the_run() {
    let mut installer = through_bootloader(true);
    assert_eq!(installer.install(ok()), Action::RemoveWorkDir);
    assert_eq!(installer.install(ok()), Action::RestoreBackup);
    assert_eq!(installer.install(failed("restore failed")), Action::Finish);
    match installer.outcome() {
        Some(Err(cause)) => assert_eq!(cause.message, "restore failed"),
        other => panic!("the run did not fail: {:?}", other),
    }
}

#[test]
fn a_failure_to_unmount_after_success_fails_the_run() {
    let mut installer = through_bootloader(false);
    assert_eq!(installer.install(failed("target is busy")), Action::RemoveWorkDir);
    assert_eq!(installer.install(ok()), Action::Finish);
    match installer.outcome() {
        Some(Err(cause)) => assert_eq!(cause.message, "target is busy"),
        other => panic!("the run did not fail: {:?}", other),
    }
}

#[test]
fn events_that_are_not_waited_for_change_nothing() {
    let mut installer = Installer::default();
    assert_eq!(installer.install(ok()), Action::Continue);
    assert_eq!(installer.install(synced()), Action::Continue);
    assert_eq!(installer.phase(), Phase::Idle);
    begin(&mut installer, false, false);
    assert_eq!(installer.install(Event::Progress(5)), Action::Continue);
    assert_eq!(installer.install(ok()), Action::Continue);
    assert_eq!(installer.phase(), Phase::Syncing(Step::Init));
    assert_eq!(installer.install(synced()), Action::Run(Step::Init));
    assert_eq!(installer.install(synced()), Action::Continue);
    assert_eq!(installer.phase(), Phase::Running(Step::Init));
}

#[test]
fn messages_can_be_sent_by_hand() {
    let mut installer = Installer::default();
    let error = Error { step: Step::Extract, err: Cause::new(ErrorKind::NotFound, "File not found") };
    installer.emit_status(Status { step: Step::Extract, percent: 50 });
    installer.emit_error(&error);
    assert!(installer.take_notices().is_empty());
    installer.on_status();
    installer.emit_status(Status { step: Step::Extract, percent: 50 });
    installer.emit_error(&error);
    installer.on_error();
    installer.emit_error(&error);
    let notices = installer.take_notices();
    assert_eq!(statuses(&notices), vec![(Step::Extract, 50)]);
    assert_eq!(errors(&notices), vec![(Step::Extract, "File not found".to_string())]);
    assert_eq!(notices.len(), 2);
}

#[test]
fn steps_know_their_place() {
    assert_eq!(Step::Init.position(), 0);
    assert_eq!(Step::Partition.position(), 1);
    assert_eq!(Step::Extract.position(), 2);
    assert_eq!(Step::Configure.position(), 3);
    assert_eq!(Step::Bootloader.position(), 4);
    assert!(!distinst::installer::is_run_mounted(Step::Init));
    assert!(!distinst::installer::is_run_mounted(Step::Partition));
    assert!(distinst::installer::is_run_mounted(Step::Extract));
    assert!(distinst::installer::is_run_mounted(Step::Bootloader));
}
