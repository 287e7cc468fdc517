//! The storage layout as the installer sees it: disks, their partitions, and
//! what each partition is meant for. The values are plain; the backend that
//! edits real partition tables keeps its own.

use crate::path::{compare_paths, same_path, Order};
use vstd::prelude::*;

verus! {

/// The firmware interface that the machine boots through.
#[derive(Copy, Clone, Debug, PartialEq, Eq, Structural)]
pub enum Bootloader {
    Bios,
    Efi,
}

impl Bootloader {
    /// The firmware interface to install for. A caller can force one: 1
    /// forces BIOS, 2 forces EFI. With any other number it is EFI where
    /// the running system shows the firmware's directory, BIOS where it
    /// does not.
    pub fn detect(forced: usize, efi_present: bool) -> (bootloader: Bootloader)
        ensures
            bootloader == if forced == 1 {
                Bootloader::Bios
            } else if forced == 2 || efi_present {
                Bootloader::Efi
            } else {
                Bootloader::Bios
            },
    {
        if forced == 1 {
            Bootloader::Bios
        } else if forced == 2 || efi_present {
            Bootloader::Efi
        } else {
            Bootloader::Bios
        }
    }
}

/// A kind of file system, or of container, that a partition can hold.
#[derive(Copy, Clone, Debug, PartialEq, Eq, Structural)]
pub enum FileSystemType {
    Btrfs,
    Exfat,
    Ext2,
    Ext3,
    Ext4,
    F2fs,
    Fat12,
    Fat16,
    Fat32,
    Ntfs,
    Swap,
    Xfs,
    Lvm,
    Luks,
}

/// Whether a partition is a primary or a logical one.
#[derive(Copy, Clone, Debug, PartialEq, Eq, Structural)]
pub enum PartitionType {
    Primary,
    Logical,
}

/// A flag that a partition table can set on a partition.
#[allow(non_camel_case_types)]
#[derive(Copy, Clone, Debug, PartialEq, Eq, Structural)]
pub enum PartitionFlag {
    PED_PARTITION_BOOT,
    PED_PARTITION_ROOT,
    PED_PARTITION_SWAP,
    PED_PARTITION_HIDDEN,
    PED_PARTITION_RAID,
    PED_PARTITION_LVM,
    PED_PARTITION_LBA,
    PED_PARTITION_HPSERVICE,
    PED_PARTITION_PALO,
    PED_PARTITION_PREP,
    PED_PARTITION_MSFT_RESERVED,
    PED_PARTITION_BIOS_GRUB,
    PED_PARTITION_APPLE_TV_RECOVERY,
    PED_PARTITION_DIAG,
    PED_PARTITION_LEGACY_BOOT,
    PED_PARTITION_MSFT_DATA,
    PED_PARTITION_IRST,
    PED_PARTITION_ESP,
}

/// The name of a file system.
pub open spec fn fs_name(fs: FileSystemType) -> Seq<char> {
    match fs {
        FileSystemType::Btrfs => "btrfs"@,
        FileSystemType::Exfat => "exfat"@,
        FileSystemType::Ext2 => "ext2"@,
        FileSystemType::Ext3 => "ext3"@,
        FileSystemType::Ext4 => "ext4"@,
        FileSystemType::F2fs => "f2fs"@,
        FileSystemType::Fat12 => "fat12"@,
        FileSystemType::Fat16 => "fat16"@,
        FileSystemType::Fat32 => "fat32"@,
        FileSystemType::Ntfs => "ntfs"@,
        FileSystemType::Swap => "linux-swap(v1)"@,
        FileSystemType::Xfs => "xfs"@,
        FileSystemType::Lvm => "lvm"@,
        FileSystemType::Luks => "luks"@,
    }
}

/// Whether the file system is one of the FAT family.
pub open spec fn is_fat(fs: FileSystemType) -> bool {
    fs == FileSystemType::Fat12 || fs == FileSystemType::Fat16 || fs == FileSystemType::Fat32
}

/// The type under which a file system is mounted: `vfat` for the FAT
/// family, its own name for every other.
pub open spec fn mount_type_name(fs: FileSystemType) -> Seq<char> {
    if is_fat(fs) {
        "vfat"@
    } else {
        fs_name(fs)
    }
}

impl FileSystemType {
    /// The name of the file system.
    pub fn name(self) -> (s: &'static str)
        ensures
            s@ == fs_name(self),
    {
        match self {
            FileSystemType::Btrfs => "btrfs",
            FileSystemType::Exfat => "exfat",
            FileSystemType::Ext2 => "ext2",
            FileSystemType::Ext3 => "ext3",
            FileSystemType::Ext4 => "ext4",
            FileSystemType::F2fs => "f2fs",
            FileSystemType::Fat12 => "fat12",
            FileSystemType::Fat16 => "fat16",
            FileSystemType::Fat32 => "fat32",
            FileSystemType::Ntfs => "ntfs",
            FileSystemType::Swap => "linux-swap(v1)",
            FileSystemType::Xfs => "xfs",
            FileSystemType::Lvm => "lvm",
            FileSystemType::Luks => "luks",
        }
    }

    /// The type under which the file system is mounted.
    pub fn mount_type(self) -> (s: &'static str)
        ensures
            s@ == mount_type_name(self),
    {
        match self {
            FileSystemType::Fat12 | FileSystemType::Fat16 | FileSystemType::Fat32 => "vfat",
            other => other.name(),
        }
    }
}

/// What an optional byte string holds.
pub open spec fn opt_bytes(o: Option<Vec<u8>>) -> Option<Seq<u8>> {
    match o {
        Some(v) => Some(v@),
        None => None,
    }
}

/// A partition as the mathematical model has it.
pub struct PartitionModel {
    pub number: i32,
    pub start_sector: u64,
    pub end_sector: u64,
    pub part_type: PartitionType,
    pub filesystem: Option<FileSystemType>,
    pub flags: Seq<PartitionFlag>,
    pub name: Option<Seq<u8>>,
    pub device_path: Seq<u8>,
    pub mount_point: Option<Seq<u8>>,
    pub target: Option<Seq<u8>>,
    pub format: bool,
}

/// A partition, or the file system that a whole device holds.
#[derive(Debug)]
pub struct PartitionInfo {
    /// The number of the partition on its disk.
    pub number: i32,
    /// The first sector of the partition.
    pub start_sector: u64,
    /// The last sector of the partition.
    pub end_sector: u64,
    /// Whether the partition is primary or logical.
    pub part_type: PartitionType,
    /// The file system that the partition holds or is to hold.
    pub filesystem: Option<FileSystemType>,
    /// The flags set on the partition.
    pub flags: Vec<PartitionFlag>,
    /// The label of the partition.
    pub name: Option<Vec<u8>>,
    /// The device node of the partition.
    pub device_path: Vec<u8>,
    /// Where the partition is mounted at present.
    pub mount_point: Option<Vec<u8>>,
    /// Where the partition is to be mounted in the installed system.
    pub target: Option<Vec<u8>>,
    /// Whether the partition is to be formatted.
    pub format: bool,
}

impl View for PartitionInfo {
    type V = PartitionModel;

    open spec fn view(&self) -> PartitionModel {
        PartitionModel {
            number: self.number,
            start_sector: self.start_sector,
            end_sector: self.end_sector,
            part_type: self.part_type,
            filesystem: self.filesystem,
            flags: self.flags@,
            name: opt_bytes(self.name),
            device_path: self.device_path@,
            mount_point: opt_bytes(self.mount_point),
            target: opt_bytes(self.target),
            format: self.format,
        }
    }
}

impl PartitionModel {
    /// The partition is to be mounted at a place that `target` names.
    pub open spec fn has_target(self, target: Seq<u8>) -> bool {
        self.target matches Some(t) && same_path(t, target)
    }

    /// The partition is mounted at present at a place that `place` names.
    pub open spec fn mounted_at(self, place: Seq<u8>) -> bool {
        self.mount_point matches Some(m) && same_path(m, place)
    }
}

impl PartitionInfo {
    /// Whether the partition is to be mounted at the place that `target`
    /// names.
    pub fn has_target(&self, target: &[u8]) -> (yes: bool)
        ensures
            yes == self@.has_target(target@),
    {
        match &self.target {
            Some(t) => compare_paths(t.as_slice(), target) == Order::Same,
            None => false,
        }
    }

    /// Whether the partition is mounted at present at the place that
    /// `place` names.
    pub fn mounted_at(&self, place: &[u8]) -> (yes: bool)
        ensures
            yes == self@.mounted_at(place@),
    {
        match &self.mount_point {
            Some(m) => compare_paths(m.as_slice(), place) == Order::Same,
            None => false,
        }
    }

    /// Whether the partition is to be formatted.
    pub fn will_format(&self) -> (yes: bool)
        ensures
            yes == self@.format,
    {
        self.format
    }

    /// The device node of the partition.
    pub fn get_device_path(&self) -> (path: &Vec<u8>)
        ensures
            path@ == self@.device_path,
    {
        &self.device_path
    }
}

/// The models of the partitions of `v`, in order.
pub open spec fn partition_models(v: Seq<PartitionInfo>) -> Seq<PartitionModel> {
    Seq::new(v.len(), |i: int| v[i]@)
}

/// The models of the partitions that `v` refers to, in order.
pub open spec fn ref_models(v: Seq<&PartitionInfo>) -> Seq<PartitionModel> {
    Seq::new(v.len(), |i: int| v[i]@)
}

/// A disk as the mathematical model has it.
pub struct DiskModel {
    pub device_path: Seq<u8>,
    pub file_system: Option<PartitionModel>,
    pub partitions: Seq<PartitionModel>,
}

impl DiskModel {
    /// What the disk holds, in the order in which it is gone through: the
    /// file system of the whole device, if there is one, then the
    /// partitions.
    pub open spec fn entries(self) -> Seq<PartitionModel> {
        match self.file_system {
            Some(fs) => seq![fs] + self.partitions,
            None => self.partitions,
        }
    }
}

/// A physical disk, or a logical device that stands above physical
/// partitions.
#[derive(Debug)]
pub struct Disk {
    /// The device node of the disk.
    pub device_path: Vec<u8>,
    /// The file system that the whole device holds, where it has no
    /// partition table.
    pub file_system: Option<PartitionInfo>,
    /// The partitions of the disk.
    pub partitions: Vec<PartitionInfo>,
}

impl View for Disk {
    type V = DiskModel;

    open spec fn view(&self) -> DiskModel {
        DiskModel {
            device_path: self.device_path@,
            file_system: match self.file_system {
                Some(fs) => Some(fs@),
                None => None,
            },
            partitions: partition_models(self.partitions@),
        }
    }
}

/// The models of the disks of `v`, in order.
pub open spec fn disk_models(v: Seq<Disk>) -> Seq<DiskModel> {
    Seq::new(v.len(), |i: int| v[i]@)
}

/// What the disks hold, disk after disk.
pub open spec fn entries_of(disks: Seq<DiskModel>) -> Seq<PartitionModel>
    decreases disks.len(),
{
    if disks.len() == 0 {
        Seq::empty()
    } else {
        entries_of(disks.drop_last()) + disks.last().entries()
    }
}

/// The layout as the mathematical model has it.
pub struct DisksModel {
    pub physical: Seq<DiskModel>,
    pub logical: Seq<DiskModel>,
}

impl DisksModel {
    /// Everything the layout holds: what the physical disks hold, then
    /// what the logical devices hold.
    pub open spec fn entries(self) -> Seq<PartitionModel> {
        entries_of(self.physical) + entries_of(self.logical)
    }
}

/// The whole layout: the physical disks and the logical devices.
#[derive(Debug)]
pub struct Disks {
    pub physical: Vec<Disk>,
    pub logical: Vec<Disk>,
}

impl View for Disks {
    type V = DisksModel;

    open spec fn view(&self) -> DisksModel {
        DisksModel { physical: disk_models(self.physical@), logical: disk_models(self.logical@) }
    }
}

/// The place of the first entry that is to be mounted at `target`, or the
/// number of entries where there is none.
pub open spec fn first_with_target(entries: Seq<PartitionModel>, target: Seq<u8>) -> int
    decreases entries.len(),
{
    if entries.len() == 0 || entries[0].has_target(target) {
        0
    } else {
        1 + first_with_target(entries.drop_first(), target)
    }
}

/// `first_with_target` is the place of the first entry with that target.
pub proof fn lemma_first_with_target(entries: Seq<PartitionModel>, target: Seq<u8>, j: int)
    requires
        0 <= j <= entries.len(),
        forall|k: int| 0 <= k < j ==> !(#[trigger] entries[k]).has_target(target),
        j == entries.len() || entries[j].has_target(target),
    ensures
        first_with_target(entries, target) == j,
    decreases j,
{
    if j > 0 {
        let t = entries.drop_first();
        assert(!entries[0].has_target(target));
        assert forall|k: int| 0 <= k < j - 1 implies !(#[trigger] t[k]).has_target(target) by {
            assert(t[k] == entries[k + 1]);
        }
        lemma_first_with_target(t, target, j - 1);
    }
}

/// Adds what `disks` hold to `out`, disk after disk.
fn push_entries<'a>(out: &mut Vec<&'a PartitionInfo>, disks: &'a Vec<Disk>)
    ensures
        ref_models(final(out)@) == ref_models(old(out)@) + entries_of(disk_models(disks@)),
{
    let ghost start = ref_models(out@);
    let ghost all = disk_models(disks@);
    let mut i: usize = 0;
    assert(start + entries_of(all.take(0)) =~= start);
    while i < disks.len()
        invariant
            0 <= i <= disks.len(),
            all == disk_models(disks@),
            ref_models(out@) == start + entries_of(all.take(i as int)),
        decreases disks.len() - i,
    {
        let disk = &disks[i];
        let ghost before = ref_models(out@);
        if let Some(fs) = &disk.file_system {
            out.push(fs);
            assert(ref_models(out@) =~= before.push(fs@));
        }
        let ghost mid = ref_models(out@);
        let mut j: usize = 0;
        assert(disk@.partitions.take(0) =~= Seq::empty());
        while j < disk.partitions.len()
            invariant
                0 <= j <= disk.partitions.len(),
                ref_models(out@) == mid + disk@.partitions.take(j as int),
            decreases disk.partitions.len() - j,
        {
            let ghost inner = ref_models(out@);
            out.push(&disk.partitions[j]);
            assert(ref_models(out@) =~= inner.push(disk.partitions@[j as int]@));
            assert(disk@.partitions.take(j + 1) =~= disk@.partitions.take(j as int).push(
                disk.partitions@[j as int]@,
            ));
            j += 1;
        }
        proof {
            assert(disk@.partitions.take(disk.partitions.len() as int) =~= disk@.partitions);
            assert(ref_models(out@) =~= before + disk@.entries());
            assert(all.take(i + 1).drop_last() =~= all.take(i as int));
            assert(all.take(i + 1).last() == disk@);
        }
        i += 1;
    }
    assert(all.take(disks.len() as int) =~= all);
}

impl Disks {
    /// Everything the layout holds, in the order in which it is gone
    /// through: the physical disks first, then the logical devices, and on
    /// each the file system of the whole device before the partitions.
    pub fn entries(&self) -> (out: Vec<&PartitionInfo>)
        ensures
            ref_models(out@) == self@.entries(),
    {
        let mut out: Vec<&PartitionInfo> = Vec::new();
        assert(ref_models(out@) =~= Seq::empty());
        push_entries(&mut out, &self.physical);
        push_entries(&mut out, &self.logical);
        assert(Seq::<PartitionModel>::empty() + entries_of(self@.physical) =~= entries_of(
            self@.physical,
        ));
        out
    }

    /// The first entry of the layout that is to be mounted at the place
    /// that `target` names.
    pub fn get_partition_with_target(&self, target: &[u8]) -> (found: Option<&PartitionInfo>)
        ensures
            match found {
                Some(p) => {
                    let i = first_with_target(self@.entries(), target@);
                    i < self@.entries().len() && p@ == self@.entries()[i]
                },
                None => first_with_target(self@.entries(), target@) == self@.entries().len(),
            },
    {
        let all = self.entries();
        let mut i: usize = 0;
        while i < all.len()
            invariant
                0 <= i <= all.len(),
                ref_models(all@) == self@.entries(),
                forall|k: int| 0 <= k < i ==> !(#[trigger] self@.entries()[k]).has_target(target@),
            decreases all.len() - i,
        {
            if all[i].has_target(target) {
                proof {
                    assert(ref_models(all@)[i as int] == all@[i as int]@);
                    lemma_first_with_target(self@.entries(), target@, i as int);
                }
                return Some(all[i]);
            }
            assert(ref_models(all@)[i as int] == all@[i as int]@);
            i += 1;
        }
        proof {
            lemma_first_with_target(self@.entries(), target@, all.len() as int);
        }
        None
    }
}

} // verus!
