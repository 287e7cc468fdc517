//! Keeping the home of an earlier installation: what is checked before any
//! disk is changed, and what the check comes to.

use crate::disk::{first_with_target, Disks, FileSystemType, PartitionInfo, PartitionModel};
use crate::installer::{Cause, CauseModel, ErrorKind};
use crate::text::{bytes, copy_bytes, to_bytes};
use vstd::prelude::*;

verus! {

/// Why the home of an earlier installation cannot be kept.
#[derive(Copy, Clone, Debug, PartialEq, Eq, Structural)]
pub enum ReinstallError {
    /// The root of the earlier installation, or the root of the new one, is
    /// not there.
    NoRootPartition,
    /// The partition that holds the home is to be formatted.
    ReformattingHome,
    /// A partition that is needed holds no file system.
    NoFilesystem,
}

/// The words in which a refusal is reported.
pub open spec fn refusal_text(e: ReinstallError) -> Seq<char> {
    match e {
        ReinstallError::NoRootPartition => "no root partition found within the configuration"@,
        ReinstallError::ReformattingHome => "supplied disk configuration will format /home when it should not"@,
        ReinstallError::NoFilesystem => "no file system was found on the partition"@,
    }
}

impl ReinstallError {
    /// The refusal as the failure of the run.
    pub fn cause(self) -> (cause: Cause)
        ensures
            cause@ == (CauseModel { kind: ErrorKind::Other, message: refusal_text(self) }),
    {
        match self {
            ReinstallError::NoRootPartition => Cause::new(
                ErrorKind::Other,
                "no root partition found within the configuration",
            ),
            ReinstallError::ReformattingHome => Cause::new(
                ErrorKind::Other,
                "supplied disk configuration will format /home when it should not",
            ),
            ReinstallError::NoFilesystem => Cause::new(
                ErrorKind::Other,
                "no file system was found on the partition",
            ),
        }
    }
}

/// What is kept and what is put back where, as the mathematical model has
/// it.
pub struct PlanModel {
    pub home_path: Seq<u8>,
    pub home_fs: FileSystemType,
    pub home_is_root: bool,
    pub old_root_path: Seq<u8>,
    pub old_root_fs: FileSystemType,
    pub root_path: Seq<u8>,
    pub root_fs: FileSystemType,
}

/// What is kept and what is put back where: the partition that holds the
/// home, the root of the earlier installation, and the root of the new one.
#[derive(Debug)]
pub struct BackupPlan {
    pub home_path: Vec<u8>,
    pub home_fs: FileSystemType,
    pub home_is_root: bool,
    pub old_root_path: Vec<u8>,
    pub old_root_fs: FileSystemType,
    pub root_path: Vec<u8>,
    pub root_fs: FileSystemType,
}

impl View for BackupPlan {
    type V = PlanModel;

    open spec fn view(&self) -> PlanModel {
        PlanModel {
            home_path: self.home_path@,
            home_fs: self.home_fs,
            home_is_root: self.home_is_root,
            old_root_path: self.old_root_path@,
            old_root_fs: self.old_root_fs,
            root_path: self.root_path@,
            root_fs: self.root_fs,
        }
    }
}

/// The first of the entries that is to be mounted at the target, if there
/// is one.
pub open spec fn with_target(entries: Seq<PartitionModel>, target: Seq<u8>) -> Option<
    PartitionModel,
> {
    let i = first_with_target(entries, target);
    if i < entries.len() {
        Some(entries[i])
    } else {
        None
    }
}

/// The partition that holds the home: the one that is to be mounted at
/// `/home`, or, where the layout has none, the root of the earlier
/// installation.
pub open spec fn home_of(entries: Seq<PartitionModel>, old_root: PartitionModel) -> PartitionModel {
    match with_target(entries, bytes("/home"@)) {
        Some(p) => p,
        None => old_root,
    }
}

/// What the check comes to. The home is kept only where the root of the
/// earlier installation was found, the layout has a root, the partition
/// that holds the home is not to be formatted, and all three hold a file
/// system. The checks are made in this order, and the first that fails
/// gives the refusal.
pub open spec fn plan_of(entries: Seq<PartitionModel>, old_root: Option<PartitionModel>) -> Result<
    PlanModel,
    ReinstallError,
> {
    match (old_root, with_target(entries, bytes("/"@))) {
        (None, _) => Err(ReinstallError::NoRootPartition),
        (Some(_), None) => Err(ReinstallError::NoRootPartition),
        (Some(old), Some(root)) => {
            let home = home_of(entries, old);
            if home.format {
                Err(ReinstallError::ReformattingHome)
            } else {
                match (root.filesystem, old.filesystem, home.filesystem) {
                    (Some(root_fs), Some(old_root_fs), Some(home_fs)) => Ok(
                        PlanModel {
                            home_path: home.device_path,
                            home_fs,
                            home_is_root: with_target(entries, bytes("/home"@)) is None,
                            old_root_path: old.device_path,
                            old_root_fs,
                            root_path: root.device_path,
                            root_fs,
                        },
                    ),
                    _ => Err(ReinstallError::NoFilesystem),
                }
            }
        },
    }
}

/// A layout that would format the partition that holds the home is
/// refused, whatever else it holds.
pub proof fn law_reformatted_home_is_refused(
    entries: Seq<PartitionModel>,
    old_root: PartitionModel,
)
    requires
        with_target(entries, bytes("/"@)) is Some,
        home_of(entries, old_root).format,
    ensures
        plan_of(entries, Some(old_root)) == Err::<PlanModel, ReinstallError>(
            ReinstallError::ReformattingHome,
        ),
{
}

/// What a plan or a refusal holds.
pub open spec fn check_outcome(r: Result<BackupPlan, ReinstallError>) -> Result<
    PlanModel,
    ReinstallError,
> {
    match r {
        Ok(p) => Ok(p@),
        Err(e) => Err(e),
    }
}

/// What a partition or none holds.
pub open spec fn opt_partition(p: Option<&PartitionInfo>) -> Option<PartitionModel> {
    match p {
        Some(p) => Some(p@),
        None => None,
    }
}

/// Checks whether the home of the earlier installation can be kept, and
/// says what is kept and what is put back where. `old_root` is the root
/// of the earlier installation, where it was found. The layout is only
/// looked at.
pub fn backup_plan(disks: &Disks, old_root: Option<&PartitionInfo>) -> (plan: Result<
    BackupPlan,
    ReinstallError,
>)
    ensures
        check_outcome(plan) == plan_of(disks@.entries(), opt_partition(old_root)),
{
    let old = match old_root {
        Some(p) => p,
        None => {
            return Err(ReinstallError::NoRootPartition);
        },
    };
    let slash = to_bytes("/");
    let root = match disks.get_partition_with_target(slash.as_slice()) {
        Some(p) => p,
        None => {
            return Err(ReinstallError::NoRootPartition);
        },
    };
    let name = to_bytes("/home");
    let (home, home_is_root) = match disks.get_partition_with_target(name.as_slice()) {
        Some(p) => (p, false),
        None => (old, true),
    };
    assert(home@ == home_of(disks@.entries(), old@));
    if home.will_format() {
        return Err(ReinstallError::ReformattingHome);
    }
    let root_fs = match root.filesystem {
        Some(fs) => fs,
        None => {
            return Err(ReinstallError::NoFilesystem);
        },
    };
    let old_root_fs = match old.filesystem {
        Some(fs) => fs,
        None => {
            return Err(ReinstallError::NoFilesystem);
        },
    };
    let home_fs = match home.filesystem {
        Some(fs) => fs,
        None => {
            return Err(ReinstallError::NoFilesystem);
        },
    };
    Ok(
        BackupPlan {
            home_path: copy_bytes(home.device_path.as_slice()),
            home_fs,
            home_is_root,
            old_root_path: copy_bytes(old.device_path.as_slice()),
            old_root_fs,
            root_path: copy_bytes(root.device_path.as_slice()),
            root_fs,
        },
    )
}

} // verus!
