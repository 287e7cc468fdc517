//! What front ends in other languages see of partitions: the enumerations
//! with their numbers, the partition builder, and the accessors of a
//! partition. Handles are owned values here; who hands them across a
//! language boundary turns them into pointers and back.

use crate::disk::{
    opt_bytes, Bootloader, FileSystemType, PartitionFlag, PartitionInfo, PartitionModel,
    PartitionType,
};
use vstd::prelude::*;
use vstd::std_specs::convert::{FromSpec, FromSpecImpl};

verus! {

/// The kind of partition table that a firmware interface asks for.
#[allow(non_camel_case_types)]
#[derive(Copy, Clone, Debug, PartialEq, Eq, Structural)]
pub enum DISTINST_PARTITION_TABLE {
    NONE,
    GPT,
    MSDOS,
}

impl DISTINST_PARTITION_TABLE {
    /// The number that stands for the kind across the boundary.
    pub fn code(self) -> (n: u32)
        ensures
            n == match self {
                DISTINST_PARTITION_TABLE::NONE => 0u32,
                DISTINST_PARTITION_TABLE::GPT => 1u32,
                DISTINST_PARTITION_TABLE::MSDOS => 2u32,
            },
    {
        match self {
            DISTINST_PARTITION_TABLE::NONE => 0,
            DISTINST_PARTITION_TABLE::GPT => 1,
            DISTINST_PARTITION_TABLE::MSDOS => 2,
        }
    }
}

/// The partition table that goes with the firmware interface that was
/// detected: MSDOS for BIOS, GPT for EFI.
pub fn distinst_bootloader_detect(detected: Bootloader) -> (table: DISTINST_PARTITION_TABLE)
    ensures
        table == match detected {
            Bootloader::Bios => DISTINST_PARTITION_TABLE::MSDOS,
            Bootloader::Efi => DISTINST_PARTITION_TABLE::GPT,
        },
{
    match detected {
        Bootloader::Bios => DISTINST_PARTITION_TABLE::MSDOS,
        Bootloader::Efi => DISTINST_PARTITION_TABLE::GPT,
    }
}

/// Whether a partition is primary or logical.
#[allow(non_camel_case_types)]
#[derive(Copy, Clone, Debug, PartialEq, Eq, Structural)]
pub enum DISTINST_PARTITION_TYPE {
    PRIMARY,
    LOGICAL,
}

impl DISTINST_PARTITION_TYPE {
    /// The number that stands for the kind across the boundary.
    pub fn code(self) -> (n: u32)
        ensures
            n == match self {
                DISTINST_PARTITION_TYPE::PRIMARY => 1u32,
                DISTINST_PARTITION_TYPE::LOGICAL => 2u32,
            },
    {
        match self {
            DISTINST_PARTITION_TYPE::PRIMARY => 1,
            DISTINST_PARTITION_TYPE::LOGICAL => 2,
        }
    }
}

impl From<PartitionType> for DISTINST_PARTITION_TYPE {
    fn from(part_type: PartitionType) -> (out: DISTINST_PARTITION_TYPE) {
        match part_type {
            PartitionType::Primary => DISTINST_PARTITION_TYPE::PRIMARY,
            PartitionType::Logical => DISTINST_PARTITION_TYPE::LOGICAL,
        }
    }
}

impl FromSpecImpl<PartitionType> for DISTINST_PARTITION_TYPE {
    open spec fn obeys_from_spec() -> bool {
        true
    }

    open spec fn from_spec(part_type: PartitionType) -> DISTINST_PARTITION_TYPE {
        match part_type {
            PartitionType::Primary => DISTINST_PARTITION_TYPE::PRIMARY,
            PartitionType::Logical => DISTINST_PARTITION_TYPE::LOGICAL,
        }
    }
}

impl From<DISTINST_PARTITION_TYPE> for PartitionType {
    fn from(part_type: DISTINST_PARTITION_TYPE) -> (out: PartitionType) {
        match part_type {
            DISTINST_PARTITION_TYPE::PRIMARY => PartitionType::Primary,
            DISTINST_PARTITION_TYPE::LOGICAL => PartitionType::Logical,
        }
    }
}

impl FromSpecImpl<DISTINST_PARTITION_TYPE> for PartitionType {
    open spec fn obeys_from_spec() -> bool {
        true
    }

    open spec fn from_spec(part_type: DISTINST_PARTITION_TYPE) -> PartitionType {
        match part_type {
            DISTINST_PARTITION_TYPE::PRIMARY => PartitionType::Primary,
            DISTINST_PARTITION_TYPE::LOGICAL => PartitionType::Logical,
        }
    }
}

/// A flag of a partition.
#[allow(non_camel_case_types)]
#[derive(Copy, Clone, Debug, PartialEq, Eq, Structural)]
pub enum DISTINST_PARTITION_FLAG {
    BOOT,
    ROOT,
    SWAP,
    HIDDEN,
    RAID,
    LVM,
    LBA,
    HPSERVICE,
    PALO,
    PREP,
    MSFT_RESERVED,
    BIOS_GRUB,
    APPLE_TV_RECOVERY,
    DIAG,
    LEGACY_BOOT,
    MSFT_DATA,
    IRST,
    ESP,
}

impl From<PartitionFlag> for DISTINST_PARTITION_FLAG {
    fn from(flag: PartitionFlag) -> (out: DISTINST_PARTITION_FLAG) {
        match flag {
            PartitionFlag::PED_PARTITION_BOOT => DISTINST_PARTITION_FLAG::BOOT,
            PartitionFlag::PED_PARTITION_ROOT => DISTINST_PARTITION_FLAG::ROOT,
            PartitionFlag::PED_PARTITION_SWAP => DISTINST_PARTITION_FLAG::SWAP,
            PartitionFlag::PED_PARTITION_HIDDEN => DISTINST_PARTITION_FLAG::HIDDEN,
            PartitionFlag::PED_PARTITION_RAID => DISTINST_PARTITION_FLAG::RAID,
            PartitionFlag::PED_PARTITION_LVM => DISTINST_PARTITION_FLAG::LVM,
            PartitionFlag::PED_PARTITION_LBA => DISTINST_PARTITION_FLAG::LBA,
            PartitionFlag::PED_PARTITION_HPSERVICE => DISTINST_PARTITION_FLAG::HPSERVICE,
            PartitionFlag::PED_PARTITION_PALO => DISTINST_PARTITION_FLAG::PALO,
            PartitionFlag::PED_PARTITION_PREP => DISTINST_PARTITION_FLAG::PREP,
            PartitionFlag::PED_PARTITION_MSFT_RESERVED => DISTINST_PARTITION_FLAG::MSFT_RESERVED,
            PartitionFlag::PED_PARTITION_BIOS_GRUB => DISTINST_PARTITION_FLAG::BIOS_GRUB,
            PartitionFlag::PED_PARTITION_APPLE_TV_RECOVERY => {
                DISTINST_PARTITION_FLAG::APPLE_TV_RECOVERY
            },
            PartitionFlag::PED_PARTITION_DIAG => DISTINST_PARTITION_FLAG::DIAG,
            PartitionFlag::PED_PARTITION_LEGACY_BOOT => DISTINST_PARTITION_FLAG::LEGACY_BOOT,
            PartitionFlag::PED_PARTITION_MSFT_DATA => DISTINST_PARTITION_FLAG::MSFT_DATA,
            PartitionFlag::PED_PARTITION_IRST => DISTINST_PARTITION_FLAG::IRST,
            PartitionFlag::PED_PARTITION_ESP => DISTINST_PARTITION_FLAG::ESP,
        }
    }
}

impl FromSpecImpl<PartitionFlag> for DISTINST_PARTITION_FLAG {
    open spec fn obeys_from_spec() -> bool {
        true
    }

    open spec fn from_spec(flag: PartitionFlag) -> DISTINST_PARTITION_FLAG {
        match flag {
            PartitionFlag::PED_PARTITION_BOOT => DISTINST_PARTITION_FLAG::BOOT,
            PartitionFlag::PED_PARTITION_ROOT => DISTINST_PARTITION_FLAG::ROOT,
            PartitionFlag::PED_PARTITION_SWAP => DISTINST_PARTITION_FLAG::SWAP,
            PartitionFlag::PED_PARTITION_HIDDEN => DISTINST_PARTITION_FLAG::HIDDEN,
            PartitionFlag::PED_PARTITION_RAID => DISTINST_PARTITION_FLAG::RAID,
            PartitionFlag::PED_PARTITION_LVM => DISTINST_PARTITION_FLAG::LVM,
            PartitionFlag::PED_PARTITION_LBA => DISTINST_PARTITION_FLAG::LBA,
            PartitionFlag::PED_PARTITION_HPSERVICE => DISTINST_PARTITION_FLAG::HPSERVICE,
            PartitionFlag::PED_PARTITION_PALO => DISTINST_PARTITION_FLAG::PALO,
            PartitionFlag::PED_PARTITION_PREP => DISTINST_PARTITION_FLAG::PREP,
            PartitionFlag::PED_PARTITION_MSFT_RESERVED => DISTINST_PARTITION_FLAG::MSFT_RESERVED,
            PartitionFlag::PED_PARTITION_BIOS_GRUB => DISTINST_PARTITION_FLAG::BIOS_GRUB,
            PartitionFlag::PED_PARTITION_APPLE_TV_RECOVERY => {
                DISTINST_PARTITION_FLAG::APPLE_TV_RECOVERY
            },
            PartitionFlag::PED_PARTITION_DIAG => DISTINST_PARTITION_FLAG::DIAG,
            PartitionFlag::PED_PARTITION_LEGACY_BOOT => DISTINST_PARTITION_FLAG::LEGACY_BOOT,
            PartitionFlag::PED_PARTITION_MSFT_DATA => DISTINST_PARTITION_FLAG::MSFT_DATA,
            PartitionFlag::PED_PARTITION_IRST => DISTINST_PARTITION_FLAG::IRST,
            PartitionFlag::PED_PARTITION_ESP => DISTINST_PARTITION_FLAG::ESP,
        }
    }
}

impl From<DISTINST_PARTITION_FLAG> for PartitionFlag {
    fn from(flag: DISTINST_PARTITION_FLAG) -> (out: PartitionFlag) {
        match flag {
            DISTINST_PARTITION_FLAG::BOOT => PartitionFlag::PED_PARTITION_BOOT,
            DISTINST_PARTITION_FLAG::ROOT => PartitionFlag::PED_PARTITION_ROOT,
            DISTINST_PARTITION_FLAG::SWAP => PartitionFlag::PED_PARTITION_SWAP,
            DISTINST_PARTITION_FLAG::HIDDEN => PartitionFlag::PED_PARTITION_HIDDEN,
            DISTINST_PARTITION_FLAG::RAID => PartitionFlag::PED_PARTITION_RAID,
            DISTINST_PARTITION_FLAG::LVM => PartitionFlag::PED_PARTITION_LVM,
            DISTINST_PARTITION_FLAG::LBA => PartitionFlag::PED_PARTITION_LBA,
            DISTINST_PARTITION_FLAG::HPSERVICE => PartitionFlag::PED_PARTITION_HPSERVICE,
            DISTINST_PARTITION_FLAG::PALO => PartitionFlag::PED_PARTITION_PALO,
            DISTINST_PARTITION_FLAG::PREP => PartitionFlag::PED_PARTITION_PREP,
            DISTINST_PARTITION_FLAG::MSFT_RESERVED => PartitionFlag::PED_PARTITION_MSFT_RESERVED,
            DISTINST_PARTITION_FLAG::BIOS_GRUB => PartitionFlag::PED_PARTITION_BIOS_GRUB,
            DISTINST_PARTITION_FLAG::APPLE_TV_RECOVERY => {
                PartitionFlag::PED_PARTITION_APPLE_TV_RECOVERY
            },
            DISTINST_PARTITION_FLAG::DIAG => PartitionFlag::PED_PARTITION_DIAG,
            DISTINST_PARTITION_FLAG::LEGACY_BOOT => PartitionFlag::PED_PARTITION_LEGACY_BOOT,
            DISTINST_PARTITION_FLAG::MSFT_DATA => PartitionFlag::PED_PARTITION_MSFT_DATA,
            DISTINST_PARTITION_FLAG::IRST => PartitionFlag::PED_PARTITION_IRST,
            DISTINST_PARTITION_FLAG::ESP => PartitionFlag::PED_PARTITION_ESP,
        }
    }
}

impl FromSpecImpl<DISTINST_PARTITION_FLAG> for PartitionFlag {
    open spec fn obeys_from_spec() -> bool {
        true
    }

    open spec fn from_spec(flag: DISTINST_PARTITION_FLAG) -> PartitionFlag {
        match flag {
            DISTINST_PARTITION_FLAG::BOOT => PartitionFlag::PED_PARTITION_BOOT,
            DISTINST_PARTITION_FLAG::ROOT => PartitionFlag::PED_PARTITION_ROOT,
            DISTINST_PARTITION_FLAG::SWAP => PartitionFlag::PED_PARTITION_SWAP,
            DISTINST_PARTITION_FLAG::HIDDEN => PartitionFlag::PED_PARTITION_HIDDEN,
            DISTINST_PARTITION_FLAG::RAID => PartitionFlag::PED_PARTITION_RAID,
            DISTINST_PARTITION_FLAG::LVM => PartitionFlag::PED_PARTITION_LVM,
            DISTINST_PARTITION_FLAG::LBA => PartitionFlag::PED_PARTITION_LBA,
            DISTINST_PARTITION_FLAG::HPSERVICE => PartitionFlag::PED_PARTITION_HPSERVICE,
            DISTINST_PARTITION_FLAG::PALO => PartitionFlag::PED_PARTITION_PALO,
            DISTINST_PARTITION_FLAG::PREP => PartitionFlag::PED_PARTITION_PREP,
            DISTINST_PARTITION_FLAG::MSFT_RESERVED => PartitionFlag::PED_PARTITION_MSFT_RESERVED,
            DISTINST_PARTITION_FLAG::BIOS_GRUB => PartitionFlag::PED_PARTITION_BIOS_GRUB,
            DISTINST_PARTITION_FLAG::APPLE_TV_RECOVERY => {
                PartitionFlag::PED_PARTITION_APPLE_TV_RECOVERY
            },
            DISTINST_PARTITION_FLAG::DIAG => PartitionFlag::PED_PARTITION_DIAG,
            DISTINST_PARTITION_FLAG::LEGACY_BOOT => PartitionFlag::PED_PARTITION_LEGACY_BOOT,
            DISTINST_PARTITION_FLAG::MSFT_DATA => PartitionFlag::PED_PARTITION_MSFT_DATA,
            DISTINST_PARTITION_FLAG::IRST => PartitionFlag::PED_PARTITION_IRST,
            DISTINST_PARTITION_FLAG::ESP => PartitionFlag::PED_PARTITION_ESP,
        }
    }
}

/// The flag that a flag across the boundary stands for.
pub open spec fn flag_of(flag: DISTINST_PARTITION_FLAG) -> PartitionFlag {
    <PartitionFlag as FromSpec<DISTINST_PARTITION_FLAG>>::from_spec(flag)
}

/// The flag across the boundary that stands for a flag.
pub open spec fn flag_for(flag: PartitionFlag) -> DISTINST_PARTITION_FLAG {
    <DISTINST_PARTITION_FLAG as FromSpec<PartitionFlag>>::from_spec(flag)
}

/// The partition type that a type across the boundary stands for.
pub open spec fn type_of(part_type: DISTINST_PARTITION_TYPE) -> PartitionType {
    <PartitionType as FromSpec<DISTINST_PARTITION_TYPE>>::from_spec(part_type)
}

/// The type across the boundary that stands for a partition type.
pub open spec fn type_for(part_type: PartitionType) -> DISTINST_PARTITION_TYPE {
    <DISTINST_PARTITION_TYPE as FromSpec<PartitionType>>::from_spec(part_type)
}

/// Turning a flag into its counterpart across the boundary and back gives
/// the flag again, in both directions.
pub proof fn lemma_flag_round_trip(flag: PartitionFlag, other: DISTINST_PARTITION_FLAG)
    ensures
        flag_of(flag_for(flag)) == flag,
        flag_for(flag_of(other)) == other,
{
}

/// Turning a partition type into its counterpart across the boundary and
/// back gives the type again, in both directions.
pub proof fn lemma_type_round_trip(part_type: PartitionType, other: DISTINST_PARTITION_TYPE)
    ensures
        type_of(type_for(part_type)) == part_type,
        type_for(type_of(other)) == other,
{
}

/// A kind of file system, or none.
#[allow(non_camel_case_types)]
#[derive(Copy, Clone, Debug, PartialEq, Eq, Structural)]
pub enum DISTINST_FILE_SYSTEM_TYPE {
    NONE,
    BTRFS,
    EXFAT,
    EXT2,
    EXT3,
    EXT4,
    F2FS,
    FAT16,
    FAT32,
    NTFS,
    SWAP,
    XFS,
    LVM,
    LUKS,
    FAT12,
}

/// The file system that a kind across the boundary stands for.
pub open spec fn file_system_of(fs: DISTINST_FILE_SYSTEM_TYPE) -> Option<FileSystemType> {
    match fs {
        DISTINST_FILE_SYSTEM_TYPE::NONE => None,
        DISTINST_FILE_SYSTEM_TYPE::BTRFS => Some(FileSystemType::Btrfs),
        DISTINST_FILE_SYSTEM_TYPE::EXFAT => Some(FileSystemType::Exfat),
        DISTINST_FILE_SYSTEM_TYPE::EXT2 => Some(FileSystemType::Ext2),
        DISTINST_FILE_SYSTEM_TYPE::EXT3 => Some(FileSystemType::Ext3),
        DISTINST_FILE_SYSTEM_TYPE::EXT4 => Some(FileSystemType::Ext4),
        DISTINST_FILE_SYSTEM_TYPE::F2FS => Some(FileSystemType::F2fs),
        DISTINST_FILE_SYSTEM_TYPE::FAT16 => Some(FileSystemType::Fat16),
        DISTINST_FILE_SYSTEM_TYPE::FAT32 => Some(FileSystemType::Fat32),
        DISTINST_FILE_SYSTEM_TYPE::NTFS => Some(FileSystemType::Ntfs),
        DISTINST_FILE_SYSTEM_TYPE::SWAP => Some(FileSystemType::Swap),
        DISTINST_FILE_SYSTEM_TYPE::XFS => Some(FileSystemType::Xfs),
        DISTINST_FILE_SYSTEM_TYPE::LVM => Some(FileSystemType::Lvm),
        DISTINST_FILE_SYSTEM_TYPE::LUKS => Some(FileSystemType::Luks),
        DISTINST_FILE_SYSTEM_TYPE::FAT12 => Some(FileSystemType::Fat12),
    }
}

impl DISTINST_FILE_SYSTEM_TYPE {
    /// The file system that the kind stands for, if it stands for one.
    pub fn file_system(self) -> (fs: Option<FileSystemType>)
        ensures
            fs == file_system_of(self),
    {
        match self {
            DISTINST_FILE_SYSTEM_TYPE::NONE => None,
            DISTINST_FILE_SYSTEM_TYPE::BTRFS => Some(FileSystemType::Btrfs),
            DISTINST_FILE_SYSTEM_TYPE::EXFAT => Some(FileSystemType::Exfat),
            DISTINST_FILE_SYSTEM_TYPE::EXT2 => Some(FileSystemType::Ext2),
            DISTINST_FILE_SYSTEM_TYPE::EXT3 => Some(FileSystemType::Ext3),
            DISTINST_FILE_SYSTEM_TYPE::EXT4 => Some(FileSystemType::Ext4),
            DISTINST_FILE_SYSTEM_TYPE::F2FS => Some(FileSystemType::F2fs),
            DISTINST_FILE_SYSTEM_TYPE::FAT16 => Some(FileSystemType::Fat16),
            DISTINST_FILE_SYSTEM_TYPE::FAT32 => Some(FileSystemType::Fat32),
            DISTINST_FILE_SYSTEM_TYPE::NTFS => Some(FileSystemType::Ntfs),
            DISTINST_FILE_SYSTEM_TYPE::SWAP => Some(FileSystemType::Swap),
            DISTINST_FILE_SYSTEM_TYPE::XFS => Some(FileSystemType::Xfs),
            DISTINST_FILE_SYSTEM_TYPE::LVM => Some(FileSystemType::Lvm),
            DISTINST_FILE_SYSTEM_TYPE::LUKS => Some(FileSystemType::Luks),
            DISTINST_FILE_SYSTEM_TYPE::FAT12 => Some(FileSystemType::Fat12),
        }
    }
}

/// What a partition builder holds, as the mathematical model has it.
pub struct BuilderModel {
    pub start_sector: u64,
    pub end_sector: u64,
    pub filesystem: FileSystemType,
    pub part_type: PartitionType,
    pub name: Option<Seq<u8>>,
    pub flags: Seq<PartitionFlag>,
    pub mount: Option<Seq<u8>>,
}

/// The description of a partition that is yet to be made.
#[derive(Debug)]
pub struct PartitionBuilder {
    pub start_sector: u64,
    pub end_sector: u64,
    pub filesystem: FileSystemType,
    pub part_type: PartitionType,
    pub name: Option<Vec<u8>>,
    pub flags: Vec<PartitionFlag>,
    pub mount: Option<Vec<u8>>,
}

impl View for PartitionBuilder {
    type V = BuilderModel;

    open spec fn view(&self) -> BuilderModel {
        BuilderModel {
            start_sector: self.start_sector,
            end_sector: self.end_sector,
            filesystem: self.filesystem,
            part_type: self.part_type,
            name: opt_bytes(self.name),
            flags: self.flags@,
            mount: opt_bytes(self.mount),
        }
    }
}

impl PartitionBuilder {
    /// The description of a primary partition over the given sectors with
    /// the given file system, without name, flags or target.
    pub fn new(start_sector: u64, end_sector: u64, filesystem: FileSystemType) -> (builder:
        PartitionBuilder)
        ensures
            builder@ == (BuilderModel {
                start_sector,
                end_sector,
                filesystem,
                part_type: PartitionType::Primary,
                name: None,
                flags: Seq::empty(),
                mount: None,
            }),
    {
        PartitionBuilder {
            start_sector,
            end_sector,
            filesystem,
            part_type: PartitionType::Primary,
            name: None,
            flags: Vec::new(),
            mount: None,
        }
    }

    /// The description with the given name.
    pub fn name(self, name: Vec<u8>) -> (builder: PartitionBuilder)
        ensures
            builder@ == (BuilderModel { name: Some(name@), ..self@ }),
    {
        PartitionBuilder { name: Some(name), ..self }
    }

    /// The description with the given target.
    pub fn mount(self, target: Vec<u8>) -> (builder: PartitionBuilder)
        ensures
            builder@ == (BuilderModel { mount: Some(target@), ..self@ }),
    {
        PartitionBuilder { mount: Some(target), ..self }
    }

    /// The description with the given partition type.
    pub fn partition_type(self, part_type: PartitionType) -> (builder: PartitionBuilder)
        ensures
            builder@ == (BuilderModel { part_type, ..self@ }),
    {
        PartitionBuilder { part_type, ..self }
    }

    /// The description with one flag more.
    pub fn flag(self, flag: PartitionFlag) -> (builder: PartitionBuilder)
        ensures
            builder@ == (BuilderModel { flags: self@.flags.push(flag), ..self@ }),
    {
        let mut builder = self;
        builder.flags.push(flag);
        builder
    }
}

/// The handle of a partition builder.
#[derive(Debug)]
pub struct DistinstPartitionBuilder(pub PartitionBuilder);

impl View for DistinstPartitionBuilder {
    type V = BuilderModel;

    open spec fn view(&self) -> BuilderModel {
        self.0@
    }
}

/// A new builder for a partition over the given sectors; no builder where
/// the file system is `NONE`.
pub fn distinst_partition_builder_new(
    start_sector: u64,
    end_sector: u64,
    filesystem: DISTINST_FILE_SYSTEM_TYPE,
) -> (builder: Option<DistinstPartitionBuilder>)
    ensures
        match builder {
            Some(b) => file_system_of(filesystem) is Some && b@ == (BuilderModel {
                start_sector,
                end_sector,
                filesystem: file_system_of(filesystem)->0,
                part_type: PartitionType::Primary,
                name: None,
                flags: Seq::empty(),
                mount: None,
            }),
            None => file_system_of(filesystem) is None,
        },
{
    match filesystem.file_system() {
        Some(fs) => Some(DistinstPartitionBuilder(PartitionBuilder::new(start_sector, end_sector, fs))),
        None => None,
    }
}

/// Gives the builder up. Nothing is left of it.
pub fn distinst_partition_builder_destroy(builder: DistinstPartitionBuilder) {
    let DistinstPartitionBuilder(_inner) = builder;
}

/// The builder with the given name, under a fresh handle.
pub fn distinst_partition_builder_name(builder: DistinstPartitionBuilder, name: Vec<u8>) -> (out:
    DistinstPartitionBuilder)
    ensures
        out@ == (BuilderModel { name: Some(name@), ..builder@ }),
{
    DistinstPartitionBuilder(builder.0.name(name))
}

/// The builder with the given target, under a fresh handle.
pub fn distinst_partition_builder_mount(builder: DistinstPartitionBuilder, target: Vec<u8>) -> (out:
    DistinstPartitionBuilder)
    ensures
        out@ == (BuilderModel { mount: Some(target@), ..builder@ }),
{
    DistinstPartitionBuilder(builder.0.mount(target))
}

/// The builder with the given partition type, under a fresh handle.
pub fn distinst_partition_builder_partition_type(
    builder: DistinstPartitionBuilder,
    part_type: DISTINST_PARTITION_TYPE,
) -> (out: DistinstPartitionBuilder)
    ensures
        out@ == (BuilderModel { part_type: type_of(part_type), ..builder@ }),
{
    DistinstPartitionBuilder(builder.0.partition_type(PartitionType::from(part_type)))
}

/// The builder with one flag more, under a fresh handle.
pub fn distinst_partition_builder_flag(
    builder: DistinstPartitionBuilder,
    flag: DISTINST_PARTITION_FLAG,
) -> (out: DistinstPartitionBuilder)
    ensures
        out@ == (BuilderModel {
            flags: builder@.flags.push(flag_of(flag)),
            ..builder@
        }),
{
    DistinstPartitionBuilder(builder.0.flag(PartitionFlag::from(flag)))
}

/// The handle of a partition.
#[derive(Debug)]
pub struct DistinstPartition(pub PartitionInfo);

impl View for DistinstPartition {
    type V = PartitionModel;

    open spec fn view(&self) -> PartitionModel {
        self.0@
    }
}

/// The flags that the flags across the boundary stand for, in order.
pub open spec fn flags_of(flags: Seq<DISTINST_PARTITION_FLAG>) -> Seq<PartitionFlag> {
    Seq::new(flags.len(), |i: int| flag_of(flags[i]))
}

/// The device node of the partition, as bytes with their number.
pub fn distinst_partition_get_device_path(partition: &DistinstPartition) -> (path: &Vec<u8>)
    ensures
        path@ == partition@.device_path,
{
    partition.0.get_device_path()
}

/// The first sector of the partition.
pub fn distinst_partition_get_start_sector(partition: &DistinstPartition) -> (sector: u64)
    ensures
        sector == partition@.start_sector,
{
    partition.0.start_sector
}

/// The last sector of the partition.
pub fn distinst_partition_get_end_sector(partition: &DistinstPartition) -> (sector: u64)
    ensures
        sector == partition@.end_sector,
{
    partition.0.end_sector
}

/// Sets where the partition is to be mounted.
pub fn distinst_partition_set_mount(partition: &mut DistinstPartition, target: Vec<u8>)
    ensures
        final(partition)@ == (PartitionModel { target: Some(target@), ..old(partition)@ }),
{
    partition.0.target = Some(target);
}

/// Replaces all flags of the partition by the given ones.
pub fn distinst_partition_set_flags(
    partition: &mut DistinstPartition,
    flags: &[DISTINST_PARTITION_FLAG],
)
    ensures
        final(partition)@ == (PartitionModel { flags: flags_of(flags@), ..old(partition)@ }),
{
    let mut targets: Vec<PartitionFlag> = Vec::new();
    let mut i: usize = 0;
    while i < flags.len()
        invariant
            0 <= i <= flags.len(),
            targets@ == flags_of(flags@.take(i as int)),
        decreases flags.len() - i,
    {
        targets.push(PartitionFlag::from(flags[i]));
        assert(flags_of(flags@.take(i + 1)) =~= flags_of(flags@.take(i as int)).push(
            flag_of(flags@[i as int]),
        ));
        i += 1;
    }
    assert(flags@.take(flags.len() as int) =~= flags@);
    partition.0.flags = targets;
}

/// Marks the partition to be formatted with the given file system, which
/// also drops its name, and answers 0; answers -1 and changes nothing
/// where the file system is `NONE`.
pub fn distinst_partition_format_with(
    partition: &mut DistinstPartition,
    fs: DISTINST_FILE_SYSTEM_TYPE,
) -> (status: i32)
    ensures
        match file_system_of(fs) {
            Some(f) => status == 0 && final(partition)@ == (PartitionModel {
                format: true,
                filesystem: Some(f),
                name: None,
                ..old(partition)@
            }),
            None => status == -1 && final(partition)@ == old(partition)@,
        },
{
    match fs.file_system() {
        Some(f) => {
            partition.0.format = true;
            partition.0.filesystem = Some(f);
            partition.0.name = None;
            0
        },
        None => -1,
    }
}

} // verus!
