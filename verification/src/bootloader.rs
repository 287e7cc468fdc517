//! The boot loader step: which device the boot loader goes to, and which
//! tools are run for it inside the root directory of the installation.

use crate::command::{command_models, Command, CommandModel};
use crate::disk::{disk_models, first_with_target, Bootloader, Disk, DiskModel, Disks};
use crate::installer::{Config, Installer};
use crate::path::{join, join_under};
use crate::text::{bytes, copy_bytes, to_bytes};
use vstd::prelude::*;

verus! {

/// The digits of a number, the highest first.
pub open spec fn digits(n: nat) -> Seq<u8>
    decreases n,
{
    if n < 10 {
        seq![(48 + n) as u8]
    } else {
        digits(n / 10).push((48 + n % 10) as u8)
    }
}

/// A number as it is written: its digits, behind a `-` where it is below
/// zero.
pub open spec fn decimal_of(n: int) -> Seq<u8> {
    if n < 0 {
        seq![45u8] + digits((-n) as nat)
    } else {
        digits(n as nat)
    }
}

/// Appends the digits of the number.
fn push_digits(out: &mut Vec<u8>, n: u64)
    ensures
        final(out)@ == old(out)@ + digits(n as nat),
    decreases n,
{
    if n >= 10 {
        push_digits(out, n / 10);
    }
    let digit: u8 = (48 + n % 10) as u8;
    out.push(digit);
    proof {
        if n >= 10 {
            assert(out@ =~= old(out)@ + digits((n / 10) as nat).push(digit));
        } else {
            assert(out@ =~= old(out)@ + seq![digit]);
        }
    }
}

/// The number as it is written.
pub fn decimal(n: i32) -> (text: Vec<u8>)
    ensures
        text@ == decimal_of(n as int),
{
    let mut text: Vec<u8> = Vec::new();
    if n < 0 {
        text.push(45u8);
        let wide: i64 = n as i64;
        let size: u64 = (-wide) as u64;
        push_digits(&mut text, size);
    } else {
        push_digits(&mut text, n as u64);
        assert(text@ =~= digits(n as nat));
    }
    text
}

/// Whether the disk holds an entry that is to be mounted at the target.
pub open spec fn holds_target(disk: DiskModel, target: Seq<u8>) -> bool {
    first_with_target(disk.entries(), target) < disk.entries().len()
}

/// The place of the first disk that holds an entry with the target, or the
/// number of disks where none does.
pub open spec fn first_holding(disks: Seq<DiskModel>, target: Seq<u8>) -> int
    decreases disks.len(),
{
    if disks.len() == 0 || holds_target(disks[0], target) {
        0
    } else {
        1 + first_holding(disks.drop_first(), target)
    }
}

/// Where the boot loader goes, as the mathematical model has it.
pub struct TargetModel {
    pub device: Seq<u8>,
    pub esp: Option<i32>,
}

/// Where the boot loader goes: the device, and the number of the EFI system
/// partition on it where the device was chosen for that partition.
#[derive(Debug)]
pub struct BootTarget {
    pub device: Vec<u8>,
    pub esp: Option<i32>,
}

impl View for BootTarget {
    type V = TargetModel;

    open spec fn view(&self) -> TargetModel {
        TargetModel { device: self.device@, esp: self.esp }
    }
}

/// Where the boot loader goes: the first device that holds the EFI system
/// partition, which is the one to be mounted at `/boot/efi`; where there is
/// none, the first device that holds the root; where there is neither,
/// nowhere.
pub open spec fn boot_target_of(disks: Seq<DiskModel>) -> Option<TargetModel> {
    let esp = bytes("/boot/efi"@);
    let root = bytes("/"@);
    let e = first_holding(disks, esp);
    let r = first_holding(disks, root);
    if 0 <= e < disks.len() {
        Some(
            TargetModel {
                device: disks[e].device_path,
                esp: Some(disks[e].entries()[first_with_target(disks[e].entries(), esp)].number),
            },
        )
    } else if 0 <= r < disks.len() {
        Some(TargetModel { device: disks[r].device_path, esp: None })
    } else {
        None
    }
}

/// The number of the first entry of the disk that is to be mounted at the
/// target, if the disk holds one.
fn entry_number(disk: &Disk, target: &[u8]) -> (number: Option<i32>)
    ensures
        match number {
            Some(n) => holds_target(disk@, target@) && n == disk@.entries()[first_with_target(
                disk@.entries(),
                target@,
            )].number,
            None => !holds_target(disk@, target@),
        },
{
    let ghost entries = disk@.entries();
    let ghost lead: int = if disk.file_system is Some { 1 } else { 0 };
    if let Some(fs) = &disk.file_system {
        if fs.has_target(target) {
            proof {
                crate::disk::lemma_first_with_target(entries, target@, 0);
            }
            return Some(fs.number);
        }
    }
    let mut i: usize = 0;
    while i < disk.partitions.len()
        invariant
            0 <= i <= disk.partitions.len(),
            entries == disk@.entries(),
            lead == (if disk.file_system is Some { 1int } else { 0int }),
            forall|k: int| 0 <= k < lead + i ==> !(#[trigger] entries[k]).has_target(target@),
        decreases disk.partitions.len() - i,
    {
        assert(entries[lead + i] == disk.partitions@[i as int]@);
        if disk.partitions[i].has_target(target) {
            proof {
                crate::disk::lemma_first_with_target(entries, target@, lead + i);
            }
            return Some(disk.partitions[i].number);
        }
        i += 1;
    }
    proof {
        crate::disk::lemma_first_with_target(entries, target@, entries.len() as int);
    }
    None
}

/// The first of the disks that holds an entry with the target, with the
/// number of that entry.
fn find_holder<'a>(disks: &'a Vec<Disk>, target: &[u8]) -> (found: Option<(usize, i32)>)
    ensures
        match found {
            Some((i, n)) => i == first_holding(disk_models(disks@), target@) && i < disks.len()
                && n == disks@[i as int]@.entries()[first_with_target(
                disks@[i as int]@.entries(),
                target@,
            )].number,
            None => first_holding(disk_models(disks@), target@) == disks.len(),
        },
{
    let ghost all = disk_models(disks@);
    let mut i: usize = 0;
    assert(all.skip(0) =~= all);
    while i < disks.len()
        invariant
            0 <= i <= disks.len(),
            all == disk_models(disks@),
            first_holding(all, target@) == i + first_holding(all.skip(i as int), target@),
        decreases disks.len() - i,
    {
        proof {
            assert(all.skip(i as int)[0] == all[i as int]);
            assert(all[i as int] == disks@[i as int]@);
            assert(all.skip(i as int).drop_first() =~= all.skip(i + 1));
        }
        if let Some(n) = entry_number(&disks[i], target) {
            return Some((i, n));
        }
        i += 1;
    }
    None
}

/// The disks of a layout in the order of the search: the physical ones,
/// then the logical ones.
pub open spec fn all_disks(disks: crate::disk::DisksModel) -> Seq<DiskModel> {
    disks.physical + disks.logical
}

/// The first of the physical or logical disks that holds an entry with the
/// target: its device and the number of the entry.
fn find_device(disks: &Disks, target: &[u8]) -> (found: Option<(Vec<u8>, i32)>)
    ensures
        match found {
            Some((device, n)) => {
                let all = all_disks(disks@);
                let i = first_holding(all, target@);
                0 <= i < all.len() && device@ == all[i].device_path && n == all[i].entries()[first_with_target(
                    all[i].entries(),
                    target@,
                )].number
            },
            None => first_holding(all_disks(disks@), target@) == all_disks(disks@).len(),
        },
{
    proof {
        lemma_first_holding_concat(disks@.physical, disks@.logical, target@);
    }
    match find_holder(&disks.physical, target) {
        Some((i, n)) => {
            assert(all_disks(disks@)[i as int] == disks.physical@[i as int]@);
            Some((copy_bytes(disks.physical[i].device_path.as_slice()), n))
        },
        None => match find_holder(&disks.logical, target) {
            Some((i, n)) => {
                assert(all_disks(disks@)[disks.physical.len() + i] == disks.logical@[i as int]@);
                Some((copy_bytes(disks.logical[i].device_path.as_slice()), n))
            },
            None => None,
        },
    }
}

/// The first holder among two runs of disks is the first holder of the
/// first run, or behind it the first holder of the second.
pub proof fn lemma_first_holding_concat(a: Seq<DiskModel>, b: Seq<DiskModel>, target: Seq<u8>)
    ensures
        first_holding(a + b, target) == if first_holding(a, target) < a.len() {
            first_holding(a, target)
        } else {
            a.len() + first_holding(b, target)
        },
        0 <= first_holding(a, target) <= a.len(),
    decreases a.len(),
{
    if a.len() == 0 {
        assert(a + b =~= b);
    } else {
        assert((a + b)[0] == a[0]);
        assert((a + b).drop_first() =~= a.drop_first() + b);
        lemma_first_holding_concat(a.drop_first(), b, target);
    }
}

/// The directory of the EFI system partition below the root directory of
/// the installation.
pub fn efi_path(mount_dir: &[u8]) -> (path: Vec<u8>)
    ensures
        path@ == join_under(mount_dir@, bytes("boot/efi/"@)),
{
    let name = to_bytes("boot/efi/");
    join(mount_dir, name.as_slice())
}

/// The calls that install the boot loader. For BIOS the installer of GRUB
/// for the fixed architecture, on the device. For EFI the boot manager
/// under `/boot/efi`, and after it, only where the boot order is to be
/// changed, the entry in the firmware with the name of the distribution
/// for the loader on the device's EFI system partition.
pub open spec fn boot_commands_of(
    bootloader: Bootloader,
    device: Seq<u8>,
    esp: int,
    modify_boot_order: bool,
    pretty_name: Seq<u8>,
) -> Seq<CommandModel> {
    match bootloader {
        Bootloader::Bios => seq![
            CommandModel {
                program: bytes("grub-install"@),
                args: seq![bytes("--recheck"@), bytes("--target=i386-pc"@), device],
            },
        ],
        Bootloader::Efi => {
            let install = CommandModel {
                program: bytes("bootctl"@),
                args: seq![bytes("install"@), bytes("--path=/boot/efi"@), bytes("--no-variables"@)],
            };
            if modify_boot_order {
                seq![
                    install,
                    CommandModel {
                        program: bytes("efibootmgr"@),
                        args: seq![
                            bytes("--create"@),
                            bytes("--disk"@),
                            device,
                            bytes("--part"@),
                            decimal_of(esp),
                            bytes("--write-signature"@),
                            bytes("--label"@),
                            pretty_name,
                            bytes("--loader"@),
                            bytes("\\EFI\\systemd\\systemd-bootx64.efi"@),
                        ],
                    },
                ]
            } else {
                seq![install]
            }
        },
    }
}

/// The number of the EFI system partition of a target, 0 where the target
/// was not chosen for one.
pub open spec fn esp_number(target: TargetModel) -> int {
    match target.esp {
        Some(n) => n as int,
        None => 0,
    }
}

impl Installer {
    /// Where the boot loader goes: to the device that holds the EFI system
    /// partition if there is one, else to the device that holds the root.
    /// Physical devices are searched before logical ones.
    pub fn boot_target(disks: &Disks) -> (target: Option<BootTarget>)
        ensures
            match target {
                Some(t) => boot_target_of(all_disks(disks@)) == Some(t@),
                None => boot_target_of(all_disks(disks@)) is None,
            },
    {
        let esp = to_bytes("/boot/efi");
        let root = to_bytes("/");
        match find_device(disks, esp.as_slice()) {
            Some((device, n)) => Some(BootTarget { device, esp: Some(n) }),
            None => match find_device(disks, root.as_slice()) {
                Some((device, _n)) => Some(BootTarget { device, esp: None }),
                None => None,
            },
        }
    }

    /// The directory that is made for the EFI system partition before the
    /// boot loader is installed: none for BIOS, none where the target was
    /// not chosen for such a partition.
    pub fn efi_directory(bootloader: Bootloader, target: &BootTarget, mount_dir: &[u8]) -> (dir:
        Option<Vec<u8>>)
        ensures
            crate::disk::opt_bytes(dir) == if bootloader == Bootloader::Efi && target@.esp is Some {
                Some(join_under(mount_dir@, bytes("boot/efi/"@)))
            } else {
                None
            },
    {
        match bootloader {
            Bootloader::Efi => {
                if target.esp.is_some() {
                    Some(efi_path(mount_dir))
                } else {
                    None
                }
            },
            Bootloader::Bios => None,
        }
    }

    /// The calls that install the boot loader, in their order. Each is run
    /// inside the root directory of the installation; the first that does
    /// not succeed ends the step.
    pub fn bootloader(
        bootloader: Bootloader,
        target: &BootTarget,
        config: &Config,
        pretty_name: &[u8],
    ) -> (calls: Vec<Command>)
        ensures
            command_models(calls@) == boot_commands_of(
                bootloader,
                target@.device,
                esp_number(target@),
                config.modifies_boot_order(),
                pretty_name@,
            ),
    {
        let mut calls: Vec<Command> = Vec::new();
        match bootloader {
            Bootloader::Bios => {
                let mut args: Vec<Vec<u8>> = Vec::new();
                args.push(to_bytes("--recheck"));
                args.push(to_bytes("--target=i386-pc"));
                args.push(copy_bytes(target.device.as_slice()));
                let call = Command { program: to_bytes("grub-install"), args };
                assert(call@.args =~= seq![
                    bytes("--recheck"@),
                    bytes("--target=i386-pc"@),
                    target@.device,
                ]);
                calls.push(call);
                assert(command_models(calls@) =~= seq![call@]);
            },
            Bootloader::Efi => {
                let mut args: Vec<Vec<u8>> = Vec::new();
                args.push(to_bytes("install"));
                args.push(to_bytes("--path=/boot/efi"));
                args.push(to_bytes("--no-variables"));
                let install = Command { program: to_bytes("bootctl"), args };
                assert(install@.args =~= seq![
                    bytes("install"@),
                    bytes("--path=/boot/efi"@),
                    bytes("--no-variables"@),
                ]);
                calls.push(install);
                if config.modify_boot_order() {
                    let number: i32 = match target.esp {
                        Some(n) => n,
                        None => 0,
                    };
                    let mut entry: Vec<Vec<u8>> = Vec::new();
                    entry.push(to_bytes("--create"));
                    entry.push(to_bytes("--disk"));
                    entry.push(copy_bytes(target.device.as_slice()));
                    entry.push(to_bytes("--part"));
                    entry.push(decimal(number));
                    entry.push(to_bytes("--write-signature"));
                    entry.push(to_bytes("--label"));
                    entry.push(copy_bytes(pretty_name));
                    entry.push(to_bytes("--loader"));
                    entry.push(to_bytes("\\EFI\\systemd\\systemd-bootx64.efi"));
                    let order = Command { program: to_bytes("efibootmgr"), args: entry };
                    assert(order@.args =~= seq![
                        bytes("--create"@),
                        bytes("--disk"@),
                        target@.device,
                        bytes("--part"@),
                        decimal_of(esp_number(target@)),
                        bytes("--write-signature"@),
                        bytes("--label"@),
                        pretty_name@,
                        bytes("--loader"@),
                        bytes("\\EFI\\systemd\\systemd-bootx64.efi"@),
                    ]);
                    calls.push(order);
                    assert(command_models(calls@) =~= seq![install@, order@]);
                } else {
                    assert(command_models(calls@) =~= seq![install@]);
                }
            },
        }
        calls
    }
}

} // verus!
