//! The installer: its configuration, what it reports, and the record of
//! who listens to it.

use vstd::prelude::*;
use vstd::string::StringExecFns;

verus! {

/// An installation step. Steps run in the order in which they are declared.
#[derive(Copy, Clone, Debug, PartialEq, Eq, Structural)]
pub enum Step {
    Init,
    Partition,
    Extract,
    Configure,
    Bootloader,
}

impl Step {
    /// How many steps come before this one.
    pub open spec fn index(self) -> nat {
        match self {
            Step::Init => 0,
            Step::Partition => 1,
            Step::Extract => 2,
            Step::Configure => 3,
            Step::Bootloader => 4,
        }
    }

    /// How many steps come before this one.
    pub fn position(self) -> (n: usize)
        ensures
            n == self.index(),
            step_order()[n as int] == self,
    {
        match self {
            Step::Init => 0,
            Step::Partition => 1,
            Step::Extract => 2,
            Step::Configure => 3,
            Step::Bootloader => 4,
        }
    }
}

/// Set in `Config::flags` where the firmware's boot order is to be rewritten.
pub const MODIFY_BOOT_ORDER: u8 = 1;

/// Set in `Config::flags` where hardware-support packages are to be installed.
pub const INSTALL_HARDWARE_SUPPORT: u8 = 2;

/// The sectors of a default boot partition.
pub const DEFAULT_ESP_SECTORS: u64 = 1_024_000;

/// The sectors of a default recovery partition.
pub const DEFAULT_RECOVER_SECTORS: u64 = 8_388_608;

/// The sectors of a default swap partition.
pub const DEFAULT_SWAP_SECTORS: u64 = 8_388_608;

/// Installer configuration
#[derive(Debug)]
pub struct Config {
    /// Hostname to assign to the installed system.
    pub hostname: String,
    /// The keyboard layout to use with the installed system (such as "us").
    pub keyboard_layout: String,
    /// An optional keyboard model (such as "pc105") to define the keyboard's model.
    pub keyboard_model: Option<String>,
    /// An optional variant of the keyboard (such as "dvorak").
    pub keyboard_variant: Option<String>,
    /// The UUID of the old root partition, for retaining user accounts.
    pub old_root: Option<String>,
    /// The locale to use for the installed system.
    pub lang: String,
    /// The file that contains a list of packages to remove.
    pub remove: String,
    /// The archive (`tar` or `squashfs`) which contains the base system.
    pub squashfs: String,
    /// Some flags to control the behavior of the installation.
    pub flags: u8,
}

impl Config {
    /// Whether the firmware's boot order is to be rewritten.
    pub open spec fn modifies_boot_order(self) -> bool {
        self.flags & MODIFY_BOOT_ORDER != 0
    }

    /// Whether hardware-support packages are to be installed.
    pub open spec fn installs_hardware_support(self) -> bool {
        self.flags & INSTALL_HARDWARE_SUPPORT != 0
    }

    /// Whether the home of an earlier installation is to be kept.
    pub open spec fn retains_home(self) -> bool {
        self.old_root is Some
    }

    /// Whether the firmware's boot order is to be rewritten.
    pub fn modify_boot_order(&self) -> (yes: bool)
        ensures
            yes == self.modifies_boot_order(),
    {
        self.flags & MODIFY_BOOT_ORDER != 0
    }

    /// Whether hardware-support packages are to be installed.
    pub fn install_hardware_support(&self) -> (yes: bool)
        ensures
            yes == self.installs_hardware_support(),
    {
        self.flags & INSTALL_HARDWARE_SUPPORT != 0
    }
}

/// The kind of a failure.
#[derive(Copy, Clone, Debug, PartialEq, Eq, Structural)]
pub enum ErrorKind {
    /// Something that was asked for is not there.
    NotFound,
    /// The caller handed in something that cannot be used.
    InvalidInput,
    /// A file holds something that cannot be used.
    InvalidData,
    /// The run was told to stop.
    Interrupted,
    /// Any other failure: of a tool, of the disk backend, of the system.
    Other,
}

/// Why something failed, as the mathematical model has it.
pub struct CauseModel {
    pub kind: ErrorKind,
    pub message: Seq<char>,
}

/// Why something failed.
#[derive(Debug)]
pub struct Cause {
    pub kind: ErrorKind,
    pub message: String,
}

impl View for Cause {
    type V = CauseModel;

    open spec fn view(&self) -> CauseModel {
        CauseModel { kind: self.kind, message: self.message@ }
    }
}

impl Cause {
    /// A cause of the given kind with the given message.
    pub fn new(kind: ErrorKind, message: &str) -> (cause: Cause)
        ensures
            cause@ == (CauseModel { kind, message: message@ }),
    {
        Cause { kind, message: String::from_str(message) }
    }

    /// A copy of the cause.
    pub fn duplicate(&self) -> (cause: Cause)
        ensures
            cause@ == self@,
    {
        Cause { kind: self.kind, message: self.message.clone() }
    }

    /// The cause that reports that the run was told to stop.
    pub open spec fn interrupted() -> CauseModel {
        CauseModel { kind: ErrorKind::Interrupted, message: "process killed"@ }
    }
}

/// What the outcome of an outside action holds.
pub open spec fn outcome_model(r: Result<(), Cause>) -> Result<(), CauseModel> {
    match r {
        Ok(()) => Ok(()),
        Err(c) => Err(c@),
    }
}

/// An error of the installer, as the mathematical model has it.
pub struct ErrorModel {
    pub step: Step,
    pub err: CauseModel,
}

/// Installer error
#[derive(Debug)]
pub struct Error {
    pub step: Step,
    pub err: Cause,
}

impl View for Error {
    type V = ErrorModel;

    open spec fn view(&self) -> ErrorModel {
        ErrorModel { step: self.step, err: self.err@ }
    }
}

/// Installer status
#[derive(Copy, Clone, Debug, PartialEq, Eq, Structural)]
pub struct Status {
    pub step: Step,
    pub percent: i32,
}

/// What the installer reports to its listeners, as the mathematical model
/// has it.
pub enum NoticeModel {
    Status(Status),
    Error(ErrorModel),
}

/// What the installer reports to its listeners.
#[derive(Debug)]
pub enum Notice {
    /// How far a step has come.
    Status(Status),
    /// That the run has failed, in which step and why.
    Error(Error),
}

impl View for Notice {
    type V = NoticeModel;

    open spec fn view(&self) -> NoticeModel {
        match self {
            Notice::Status(s) => NoticeModel::Status(*s),
            Notice::Error(e) => NoticeModel::Error(e@),
        }
    }
}

/// The models of the notices of `v`, in order.
pub open spec fn notice_models(v: Seq<Notice>) -> Seq<NoticeModel> {
    Seq::new(v.len(), |i: int| v[i]@)
}

/// Where a run stands.
#[derive(Copy, Clone, Debug, PartialEq, Eq, Structural)]
pub enum Phase {
    /// No run has begun.
    Idle,
    /// The checks that come before any change are being made.
    Validating,
    /// Storage is being flushed before the step, and the stop flag read.
    Syncing(Step),
    /// The step is at work.
    Running(Step),
    /// The working directory is being made.
    PreparingWorkDir,
    /// The targets are being mounted.
    Mounting,
    /// The mounts are being released.
    Unmounting,
    /// The working directory is being removed.
    RemovingWorkDir,
    /// The home that was kept is being put back.
    Restoring,
    /// What is left of logical volumes and encrypted containers is being
    /// shut down.
    Deactivating,
    /// The run is over.
    Finished,
}

/// An installer object
#[derive(Debug)]
pub struct Installer {
    /// Whether someone listens for errors.
    pub(crate) error_cb: bool,
    /// Whether someone listens for status reports.
    pub(crate) status_cb: bool,
    /// The notices that no listener has been handed yet.
    pub(crate) outbox: Vec<Notice>,
    /// Where the run stands.
    pub(crate) phase: Phase,
    /// The last status of the run.
    pub(crate) status: Status,
    /// The steps that have succeeded, in order.
    pub(crate) completed: Vec<Step>,
    /// Whether the home of an earlier installation is kept.
    pub(crate) retain: bool,
    /// Whether the run ends once the targets are mounted.
    pub(crate) dry_run: bool,
    /// Why the run failed, once it has.
    pub(crate) failure: Option<Cause>,
}

/// What the installer asks the caller to do next.
#[derive(Copy, Clone, Debug, PartialEq, Eq, Structural)]
pub enum Action {
    /// Nothing new: what was asked for last goes on.
    Continue,
    /// Make the checks that come before any change: the plan for the home
    /// that is kept, the hostname, the firmware, the layout.
    Validate,
    /// Flush all storage, then read the stop flag.
    Sync,
    /// Run the step.
    Run(Step),
    /// Make the working directory.
    CreateWorkDir,
    /// Mount the targets below the working directory.
    MountTargets,
    /// Release all mounts, the last that was made first.
    UnmountAll,
    /// Remove the working directory.
    RemoveWorkDir,
    /// Put back the home that was kept.
    RestoreBackup,
    /// Shut down what is left of logical volumes and encrypted containers.
    DeactivateLogical,
    /// The run is over.
    Finish,
}

/// What the caller tells the installer, as the mathematical model has it.
pub enum EventModel {
    Begin { retain: bool, dry_run: bool },
    Synced { cancelled: bool },
    Progress(i32),
    Done(Result<(), CauseModel>),
}

/// What the caller tells the installer.
#[derive(Debug)]
pub enum Event {
    /// A run is to begin. `retain` says whether the home of an earlier
    /// installation is kept, `dry_run` whether the run ends once the
    /// targets are mounted.
    Begin { retain: bool, dry_run: bool },
    /// Storage has been flushed; `cancelled` is what the stop flag held.
    Synced { cancelled: bool },
    /// The step at work has come so many percent of its way.
    Progress(i32),
    /// What was asked for last has come to its end, well or not.
    Done(Result<(), Cause>),
}

impl View for Event {
    type V = EventModel;

    open spec fn view(&self) -> EventModel {
        match self {
            Event::Begin { retain, dry_run } => EventModel::Begin {
                retain: *retain,
                dry_run: *dry_run,
            },
            Event::Synced { cancelled } => EventModel::Synced { cancelled: *cancelled },
            Event::Progress(p) => EventModel::Progress(*p),
            Event::Done(r) => EventModel::Done(outcome_model(*r)),
        }
    }
}

/// The steps of a run, in their order.
pub open spec fn step_order() -> Seq<Step> {
    seq![Step::Init, Step::Partition, Step::Extract, Step::Configure, Step::Bootloader]
}

/// Whether the targets are mounted while the step runs.
pub open spec fn runs_mounted(step: Step) -> bool {
    step == Step::Extract || step == Step::Configure || step == Step::Bootloader
}

/// The run of an installer, as the mathematical model has it.
pub struct RunModel {
    pub error_cb: bool,
    pub status_cb: bool,
    pub outbox: Seq<NoticeModel>,
    pub phase: Phase,
    pub status: Status,
    pub completed: Seq<Step>,
    pub retain: bool,
    pub dry_run: bool,
    pub failure: Option<CauseModel>,
}

impl RunModel {
    /// The run with a status report for those who listen.
    pub open spec fn emit_status(self, status: Status) -> RunModel {
        if self.status_cb {
            RunModel { outbox: self.outbox.push(NoticeModel::Status(status)), ..self }
        } else {
            self
        }
    }

    /// The run with an error report for those who listen.
    pub open spec fn emit_error(self, error: ErrorModel) -> RunModel {
        if self.error_cb {
            RunModel { outbox: self.outbox.push(NoticeModel::Error(error)), ..self }
        } else {
            self
        }
    }

    /// All five steps have succeeded and nothing has failed: what is left
    /// is to clean up, and a failure in that still counts.
    pub open spec fn succeeding(self) -> bool {
        self.failure is None && self.completed.len() == 5
    }

    /// The failure of the run after a part of the cleanup has ended with
    /// `r`: the first failure stays; a failure of the cleanup counts only
    /// where the run was succeeding.
    pub open spec fn after_cleanup(self, r: Result<(), CauseModel>) -> Option<CauseModel> {
        match r {
            Err(c) if self.succeeding() => Some(c),
            _ => self.failure,
        }
    }

    /// The state after `e`, and what the caller is asked to do next. An
    /// event that the phase does not wait for changes nothing.
    pub open spec fn step(self, e: EventModel) -> (RunModel, Action) {
        match (self.phase, e) {
            (Phase::Idle, EventModel::Begin { retain, dry_run }) => (
                RunModel {
                    phase: Phase::Validating,
                    status: Status { step: Step::Init, percent: 0 },
                    completed: Seq::empty(),
                    retain,
                    dry_run,
                    failure: None,
                    ..self
                },
                Action::Validate,
            ),
            (Phase::Validating, EventModel::Done(Ok(()))) => (
                RunModel { phase: Phase::Syncing(Step::Init), ..self },
                Action::Sync,
            ),
            (Phase::Validating, EventModel::Done(Err(c))) => (
                RunModel { phase: Phase::Finished, failure: Some(c), ..self },
                Action::Finish,
            ),
            (Phase::Syncing(s), EventModel::Synced { cancelled }) => if cancelled {
                if runs_mounted(s) {
                    (
                        RunModel {
                            phase: Phase::Unmounting,
                            failure: Some(Cause::interrupted()),
                            ..self
                        },
                        Action::UnmountAll,
                    )
                } else {
                    (
                        RunModel {
                            phase: Phase::Finished,
                            failure: Some(Cause::interrupted()),
                            ..self
                        },
                        Action::Finish,
                    )
                }
            } else {
                let status = Status { step: s, percent: 0 };
                (
                    RunModel { phase: Phase::Running(s), status, ..self }.emit_status(status),
                    Action::Run(s),
                )
            },
            (Phase::Running(s), EventModel::Progress(p)) => {
                let status = Status { step: s, percent: p };
                (RunModel { status, ..self }.emit_status(status), Action::Continue)
            },
            (Phase::Running(s), EventModel::Done(Ok(()))) => {
                let done = RunModel { completed: self.completed.push(s), ..self };
                match s {
                    Step::Init => (
                        RunModel { phase: Phase::Syncing(Step::Partition), ..done },
                        Action::Sync,
                    ),
                    Step::Partition => (
                        RunModel { phase: Phase::PreparingWorkDir, ..done },
                        Action::CreateWorkDir,
                    ),
                    Step::Extract => (
                        RunModel { phase: Phase::Syncing(Step::Configure), ..done },
                        Action::Sync,
                    ),
                    Step::Configure => (
                        RunModel { phase: Phase::Syncing(Step::Bootloader), ..done },
                        Action::Sync,
                    ),
                    Step::Bootloader => (
                        RunModel { phase: Phase::Unmounting, ..done },
                        Action::UnmountAll,
                    ),
                }
            },
            (Phase::Running(s), EventModel::Done(Err(c))) => {
                let failed = RunModel { failure: Some(c), ..self }.emit_error(
                    ErrorModel { step: s, err: c },
                );
                if runs_mounted(s) {
                    (RunModel { phase: Phase::Unmounting, ..failed }, Action::UnmountAll)
                } else {
                    (RunModel { phase: Phase::Finished, ..failed }, Action::Finish)
                }
            },
            (Phase::PreparingWorkDir, EventModel::Done(Ok(()))) => (
                RunModel { phase: Phase::Mounting, ..self },
                Action::MountTargets,
            ),
            (Phase::PreparingWorkDir, EventModel::Done(Err(c))) => (
                RunModel { phase: Phase::Finished, failure: Some(c), ..self },
                Action::Finish,
            ),
            (Phase::Mounting, EventModel::Done(Ok(()))) => if self.dry_run {
                (RunModel { phase: Phase::Unmounting, ..self }, Action::UnmountAll)
            } else {
                (RunModel { phase: Phase::Syncing(Step::Extract), ..self }, Action::Sync)
            },
            (Phase::Mounting, EventModel::Done(Err(c))) => (
                RunModel { phase: Phase::Unmounting, failure: Some(c), ..self },
                Action::UnmountAll,
            ),
            (Phase::Unmounting, EventModel::Done(r)) => (
                RunModel { phase: Phase::RemovingWorkDir, failure: self.after_cleanup(r), ..self },
                Action::RemoveWorkDir,
            ),
            (Phase::RemovingWorkDir, EventModel::Done(r)) => {
                let cleaned = RunModel { failure: self.after_cleanup(r), ..self };
                if cleaned.succeeding() {
                    if self.retain {
                        (RunModel { phase: Phase::Restoring, ..cleaned }, Action::RestoreBackup)
                    } else {
                        (
                            RunModel { phase: Phase::Deactivating, ..cleaned },
                            Action::DeactivateLogical,
                        )
                    }
                } else {
                    (RunModel { phase: Phase::Finished, ..cleaned }, Action::Finish)
                }
            },
            (Phase::Restoring, EventModel::Done(Ok(()))) => (
                RunModel { phase: Phase::Deactivating, ..self },
                Action::DeactivateLogical,
            ),
            (Phase::Restoring, EventModel::Done(Err(c))) => (
                RunModel { phase: Phase::Finished, failure: Some(c), ..self },
                Action::Finish,
            ),
            (Phase::Deactivating, EventModel::Done(_)) => (
                RunModel { phase: Phase::Finished, ..self },
                Action::Finish,
            ),
            (Phase::Finished, _) => (self, Action::Finish),
            _ => (self, Action::Continue),
        }
    }

    /// What holds of every run: the steps that have succeeded are the
    /// first steps of the order, the step at hand is the next one, and a
    /// run that has failed runs no step.
    pub open spec fn wf(self) -> bool {
        &&& self.completed.len() <= 5
        &&& self.completed == step_order().take(self.completed.len() as int)
        &&& match self.phase {
            Phase::Idle => self.completed.len() == 0 && self.failure is None,
            Phase::Validating => self.completed.len() == 0 && self.failure is None,
            Phase::Syncing(s) | Phase::Running(s) => self.failure is None && self.completed.len()
                < 5 && s == step_order()[self.completed.len() as int],
            Phase::PreparingWorkDir | Phase::Mounting => self.failure is None
                && self.completed.len() == 2,
            Phase::Unmounting | Phase::RemovingWorkDir => self.completed.len() >= 2,
            Phase::Restoring => self.succeeding() && self.retain,
            Phase::Deactivating => self.succeeding(),
            Phase::Finished => true,
        }
    }

    /// What the run has come to: nothing while it goes on, then success or
    /// the failure.
    pub open spec fn result(self) -> Option<Result<(), CauseModel>> {
        if self.phase == Phase::Finished {
            match self.failure {
                Some(c) => Some(Err(c)),
                None => Some(Ok(())),
            }
        } else {
            None
        }
    }
}

impl View for Installer {
    type V = RunModel;

    closed spec fn view(&self) -> RunModel {
        RunModel {
            error_cb: self.error_cb,
            status_cb: self.status_cb,
            outbox: notice_models(self.outbox@),
            phase: self.phase,
            status: self.status,
            completed: self.completed@,
            retain: self.retain,
            dry_run: self.dry_run,
            failure: match self.failure {
                Some(c) => Some(c@),
                None => None,
            },
        }
    }
}

impl Installer {
    /// Create a new installer object: no run has begun, nobody listens.
    pub fn default() -> (installer: Installer)
        ensures
            installer@ == (RunModel {
                error_cb: false,
                status_cb: false,
                outbox: Seq::empty(),
                phase: Phase::Idle,
                status: Status { step: Step::Init, percent: 0 },
                completed: Seq::empty(),
                retain: false,
                dry_run: false,
                failure: None,
            }),
            installer@.wf(),
    {
        let installer = Installer {
            error_cb: false,
            status_cb: false,
            outbox: Vec::new(),
            phase: Phase::Idle,
            status: Status { step: Step::Init, percent: 0 },
            completed: Vec::new(),
            retain: false,
            dry_run: false,
            failure: None,
        };
        assert(installer@.outbox =~= Seq::empty());
        assert(installer@.completed =~= step_order().take(0));
        installer
    }

    /// Send an error message: it is kept for the listener, where there is
    /// one, and dropped where there is none.
    pub fn emit_error(&mut self, error: &Error)
        ensures
            final(self)@ == old(self)@.emit_error(error@),
    {
        if self.error_cb {
            let copy = Error { step: error.step, err: error.err.duplicate() };
            self.outbox.push(Notice::Error(copy));
            assert(self@.outbox =~= old(self)@.outbox.push(NoticeModel::Error(error@)));
        }
    }

    /// Set the error callback: from now on error messages are kept for the
    /// listener.
    pub fn on_error(&mut self)
        ensures
            final(self)@ == (RunModel { error_cb: true, ..old(self)@ }),
    {
        self.error_cb = true;
    }

    /// Send a status message: it is kept for the listener, where there is
    /// one, and dropped where there is none.
    pub fn emit_status(&mut self, status: Status)
        ensures
            final(self)@ == old(self)@.emit_status(status),
    {
        if self.status_cb {
            self.outbox.push(Notice::Status(status));
            assert(self@.outbox =~= old(self)@.outbox.push(NoticeModel::Status(status)));
        }
    }

    /// Set the status callback: from now on status messages are kept for
    /// the listener.
    pub fn on_status(&mut self)
        ensures
            final(self)@ == (RunModel { status_cb: true, ..old(self)@ }),
    {
        self.status_cb = true;
    }

    /// Hands out the messages that are kept for the listeners, in the order
    /// in which they were sent, and keeps none.
    pub fn take_notices(&mut self) -> (notices: Vec<Notice>)
        ensures
            notice_models(notices@) == old(self)@.outbox,
            final(self)@ == (RunModel { outbox: Seq::empty(), ..old(self)@ }),
    {
        let mut notices: Vec<Notice> = Vec::new();
        let ghost kept = self.outbox@;
        notices.append(&mut self.outbox);
        assert(notices@ =~= kept);
        assert(self@.outbox =~= Seq::empty());
        notices
    }

    /// Where the run stands.
    pub fn phase(&self) -> (phase: Phase)
        ensures
            phase == self@.phase,
    {
        self.phase
    }

    /// The last status of the run.
    pub fn status(&self) -> (status: Status)
        ensures
            status == self@.status,
    {
        self.status
    }

    /// How many steps have succeeded.
    pub fn steps_completed(&self) -> (n: usize)
        ensures
            n == self@.completed.len(),
    {
        self.completed.len()
    }

    /// What the run has come to: nothing while it goes on, then success or
    /// the failure.
    pub fn outcome(&self) -> (result: Option<Result<(), Cause>>)
        ensures
            match result {
                Some(r) => self@.result() == Some(outcome_model(r)),
                None => self@.result() is None,
            },
    {
        match self.phase {
            Phase::Finished => match &self.failure {
                Some(c) => Some(Err(c.duplicate())),
                None => Some(Ok(())),
            },
            _ => None,
        }
    }

    /// Records the failure of a part of the cleanup, where it counts.
    fn note_cleanup(&mut self, r: Result<(), Cause>)
        ensures
            final(self)@ == (RunModel {
                failure: old(self)@.after_cleanup(outcome_model(r)),
                ..old(self)@
            }),
    {
        if self.failure.is_none() && self.completed.len() == 5 {
            if let Err(c) = r {
                self.failure = Some(c);
            }
        }
    }

    /// Takes the run one event further and says what is to be done next.
    ///
    /// The caller begins a run, does what it is asked to do, and reports
    /// how that went; it goes on until it is asked to finish. An event that
    /// the run does not wait for changes nothing and is answered with
    /// `Action::Continue`, or with `Action::Finish` once the run is over.
    pub fn install(&mut self, event: Event) -> (action: Action)
        ensures
            final(self)@ == old(self)@.step(event@).0,
            action == old(self)@.step(event@).1,
            old(self)@.wf() ==> final(self)@.wf(),
    {
        proof {
            if old(self)@.wf() {
                lemma_step_keeps_wf(old(self)@, event@);
            }
        }
        match self.phase {
            Phase::Idle => match event {
                Event::Begin { retain, dry_run } => {
                    self.phase = Phase::Validating;
                    self.status = Status { step: Step::Init, percent: 0 };
                    self.completed = Vec::new();
                    self.retain = retain;
                    self.dry_run = dry_run;
                    self.failure = None;
                    Action::Validate
                },
                _ => Action::Continue,
            },
            Phase::Validating => match event {
                Event::Done(Ok(())) => {
                    self.phase = Phase::Syncing(Step::Init);
                    Action::Sync
                },
                Event::Done(Err(c)) => {
                    self.phase = Phase::Finished;
                    self.failure = Some(c);
                    Action::Finish
                },
                _ => Action::Continue,
            },
            Phase::Syncing(s) => match event {
                Event::Synced { cancelled } => {
                    if cancelled {
                        self.failure = Some(Cause::new(ErrorKind::Interrupted, "process killed"));
                        if is_run_mounted(s) {
                            self.phase = Phase::Unmounting;
                            Action::UnmountAll
                        } else {
                            self.phase = Phase::Finished;
                            Action::Finish
                        }
                    } else {
                        let status = Status { step: s, percent: 0 };
                        self.phase = Phase::Running(s);
                        self.status = status;
                        self.emit_status(status);
                        Action::Run(s)
                    }
                },
                _ => Action::Continue,
            },
            Phase::Running(s) => match event {
                Event::Progress(p) => {
                    let status = Status { step: s, percent: p };
                    self.status = status;
                    self.emit_status(status);
                    Action::Continue
                },
                Event::Done(Ok(())) => {
                    self.completed.push(s);
                    match s {
                        Step::Init => {
                            self.phase = Phase::Syncing(Step::Partition);
                            Action::Sync
                        },
                        Step::Partition => {
                            self.phase = Phase::PreparingWorkDir;
                            Action::CreateWorkDir
                        },
                        Step::Extract => {
                            self.phase = Phase::Syncing(Step::Configure);
                            Action::Sync
                        },
                        Step::Configure => {
                            self.phase = Phase::Syncing(Step::Bootloader);
                            Action::Sync
                        },
                        Step::Bootloader => {
                            self.phase = Phase::Unmounting;
                            Action::UnmountAll
                        },
                    }
                },
                Event::Done(Err(c)) => {
                    let error = Error { step: s, err: c.duplicate() };
                    self.failure = Some(c);
                    self.emit_error(&error);
                    if is_run_mounted(s) {
                        self.phase = Phase::Unmounting;
                        Action::UnmountAll
                    } else {
                        self.phase = Phase::Finished;
                        Action::Finish
                    }
                },
                _ => Action::Continue,
            },
            Phase::PreparingWorkDir => match event {
                Event::Done(Ok(())) => {
                    self.phase = Phase::Mounting;
                    Action::MountTargets
                },
                Event::Done(Err(c)) => {
                    self.phase = Phase::Finished;
                    self.failure = Some(c);
                    Action::Finish
                },
                _ => Action::Continue,
            },
            Phase::Mounting => match event {
                Event::Done(Ok(())) => {
                    if self.dry_run {
                        self.phase = Phase::Unmounting;
                        Action::UnmountAll
                    } else {
                        self.phase = Phase::Syncing(Step::Extract);
                        Action::Sync
                    }
                },
                Event::Done(Err(c)) => {
                    self.phase = Phase::Unmounting;
                    self.failure = Some(c);
                    Action::UnmountAll
                },
                _ => Action::Continue,
            },
            Phase::Unmounting => match event {
                Event::Done(r) => {
                    self.note_cleanup(r);
                    self.phase = Phase::RemovingWorkDir;
                    Action::RemoveWorkDir
                },
                _ => Action::Continue,
            },
            Phase::RemovingWorkDir => match event {
                Event::Done(r) => {
                    self.note_cleanup(r);
                    if self.failure.is_none() && self.completed.len() == 5 {
                        if self.retain {
                            self.phase = Phase::Restoring;
                            Action::RestoreBackup
                        } else {
                            self.phase = Phase::Deactivating;
                            Action::DeactivateLogical
                        }
                    } else {
                        self.phase = Phase::Finished;
                        Action::Finish
                    }
                },
                _ => Action::Continue,
            },
            Phase::Restoring => match event {
                Event::Done(Ok(())) => {
                    self.phase = Phase::Deactivating;
                    Action::DeactivateLogical
                },
                Event::Done(Err(c)) => {
                    self.phase = Phase::Finished;
                    self.failure = Some(c);
                    Action::Finish
                },
                _ => Action::Continue,
            },
            Phase::Deactivating => match event {
                Event::Done(_) => {
                    self.phase = Phase::Finished;
                    Action::Finish
                },
                _ => Action::Continue,
            },
            Phase::Finished => Action::Finish,
        }
    }
}

/// Whether the targets are mounted while the step runs.
pub fn is_run_mounted(step: Step) -> (yes: bool)
    ensures
        yes == runs_mounted(step),
{
    match step {
        Step::Extract | Step::Configure | Step::Bootloader => true,
        _ => false,
    }
}

/// Every event leaves a run as it should be.
pub proof fn lemma_step_keeps_wf(m: RunModel, e: EventModel)
    requires
        m.wf(),
    ensures
        m.step(e).0.wf(),
{
    let n = m.step(e).0;
    let k = m.completed.len() as int;
    if let Phase::Running(s) = m.phase {
        assert(step_order().take(k + 1) =~= step_order().take(k).push(step_order()[k]));
    }
    assert(step_order().take(0) =~= Seq::<Step>::empty());
}

} // verus!
