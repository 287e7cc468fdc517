//! The decision core of a distribution installer: which step runs next, in
//! which order targets are mounted, what is handed to each outside tool.
//!
//! The library touches nothing. Its caller does what it is asked to do,
//! reads files, runs tools, mounts devices, and reports back; the library
//! decides, from plain values to plain values.

pub mod backup;
pub mod bootloader;
pub mod command;
pub mod configure;
pub mod disk;
pub mod envfile;
pub mod initialize;
pub mod installer;
pub mod mount;
pub mod partition;
pub mod partitioning;
pub mod path;
pub mod recovery;
pub mod system;
pub mod text;
pub mod trace;

pub use crate::disk::{
    Bootloader, Disk, Disks, FileSystemType, PartitionFlag, PartitionInfo, PartitionType,
};
pub use crate::installer::{
    Action, Cause, Config, Error, ErrorKind, Event, Installer, Notice, Phase, Status, Step,
    DEFAULT_ESP_SECTORS, DEFAULT_RECOVER_SECTORS, DEFAULT_SWAP_SECTORS, INSTALL_HARDWARE_SUPPORT,
    MODIFY_BOOT_ORDER,
};
pub use crate::mount::{Mount, Mounts};
pub use crate::partition::PartitionBuilder;
pub use crate::system::{deactivate_logical_devices, device_map_exists, minimum_disk_size};
