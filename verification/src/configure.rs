//! The configuration step: which packages the boot loader needs, where the
//! root file system is found, whether it is encrypted, what is handed to
//! the script that configures the installed system, and in which order the
//! step lets go of what it holds.

use crate::command::{Command, CommandModel};
use crate::disk::{is_fat, fs_name, Bootloader, FileSystemType, PartitionInfo, PartitionModel};
use crate::installer::{outcome_model, Cause, CauseModel, Config, ErrorKind, Installer};
use crate::mount::{Mount, MountModel};
use crate::path::SLASH;
use crate::text::{bytes, bytes_eq, copy_bytes, push_bytes, to_bytes, views};
use vstd::prelude::*;

verus! {

/// The lines that every table of file systems starts with.
pub fn fstab_header() -> (header: &'static str)
    ensures
        header@ == fstab_header_text(),
{
    "# /etc/fstab: static file system information.\n#\n# Use 'blkid' to print the universally unique identifier for a\n# device; this may be used with UUID= as a more robust way to name devices\n# that works even if disks are added and removed. See fstab(5).\n#\n# <file system>  <mount point>  <type>  <options>  <dump>  <pass>\n"
}

/// The lines that every table of file systems starts with.
pub open spec fn fstab_header_text() -> Seq<char> {
    "# /etc/fstab: static file system information.\n#\n# Use 'blkid' to print the universally unique identifier for a\n# device; this may be used with UUID= as a more robust way to name devices\n# that works even if disks are added and removed. See fstab(5).\n#\n# <file system>  <mount point>  <type>  <options>  <dump>  <pass>\n"@
}

/// The table of file systems as it is written: the fixed header, then the
/// entries.
pub fn fstab_file(entries: &[u8]) -> (file: Vec<u8>)
    ensures
        file@ == bytes(fstab_header_text()) + entries@,
{
    let mut file = to_bytes(fstab_header());
    push_bytes(&mut file, entries);
    file
}

/// The package that installs the boot loader: GRUB for BIOS; for EFI the
/// kernel stub on the distribution that ships it, GRUB on every other.
pub open spec fn loader_package(bootloader: Bootloader, os_name: Seq<u8>) -> Seq<u8> {
    match bootloader {
        Bootloader::Bios => bytes("grub-pc"@),
        Bootloader::Efi => if os_name == bytes("Pop!_OS"@) {
            bytes("kernelstub"@)
        } else {
            bytes("grub-efi"@)
        },
    }
}

/// The packages to install: the one for the boot loader, and after it the
/// packages for the hardware where they are asked for.
pub open spec fn packages_of(
    bootloader: Bootloader,
    os_name: Seq<u8>,
    hardware_support: bool,
    hardware: Seq<Seq<u8>>,
) -> Seq<Seq<u8>> {
    if hardware_support {
        seq![loader_package(bootloader, os_name)] + hardware
    } else {
        seq![loader_package(bootloader, os_name)]
    }
}

/// The packages that the script is to install. `hardware` names the
/// packages that the machine's hardware asks for; they are taken where the
/// configuration asks for hardware support.
pub fn install_packages(
    bootloader: Bootloader,
    os_name: &[u8],
    config: &Config,
    hardware: &Vec<Vec<u8>>,
) -> (packages: Vec<Vec<u8>>)
    ensures
        views(packages@) == packages_of(
            bootloader,
            os_name@,
            config.installs_hardware_support(),
            views(hardware@),
        ),
{
    let mut packages: Vec<Vec<u8>> = Vec::new();
    let loader = match bootloader {
        Bootloader::Bios => to_bytes("grub-pc"),
        Bootloader::Efi => {
            let pop = to_bytes("Pop!_OS");
            if bytes_eq(os_name, pop.as_slice()) {
                to_bytes("kernelstub")
            } else {
                to_bytes("grub-efi")
            }
        },
    };
    packages.push(loader);
    let ghost first = views(packages@);
    assert(first =~= seq![loader_package(bootloader, os_name@)]);
    if config.install_hardware_support() {
        let mut i: usize = 0;
        while i < hardware.len()
            invariant
                0 <= i <= hardware.len(),
                views(packages@) == first + views(hardware@).take(i as int),
            decreases hardware.len() - i,
        {
            let ghost before = views(packages@);
            packages.push(copy_bytes(hardware[i].as_slice()));
            assert(views(packages@) =~= before.push(hardware@[i as int]@));
            assert(views(hardware@).take(i + 1) =~= views(hardware@).take(i as int).push(
                hardware@[i as int]@,
            ));
            i += 1;
        }
        assert(views(hardware@).take(hardware.len() as int) =~= views(hardware@));
    }
    packages
}

/// What writing the files of the step comes to. All four writers have run
/// to their end; the first failure in the order script, workaround for
/// logical volumes, tables, graphics is the failure of the step, and where
/// none failed the answer of the graphics workaround is handed on.
pub open spec fn files_written(
    script: Result<(), CauseModel>,
    graphics: Result<bool, CauseModel>,
    lvm: Result<(), CauseModel>,
    tables: Result<(), CauseModel>,
) -> Result<bool, CauseModel> {
    match (script, lvm, tables, graphics) {
        (Err(c), _, _, _) => Err(c),
        (Ok(_), Err(c), _, _) => Err(c),
        (Ok(_), Ok(_), Err(c), _) => Err(c),
        (Ok(_), Ok(_), Ok(_), Err(c)) => Err(c),
        (Ok(_), Ok(_), Ok(_), Ok(b)) => Ok(b),
    }
}

/// What a flag or a failure holds.
pub open spec fn flag_outcome(r: Result<bool, Cause>) -> Result<bool, CauseModel> {
    match r {
        Ok(b) => Ok(b),
        Err(c) => Err(c@),
    }
}

/// What writing the two tables comes to: the failure of the table of
/// encrypted devices before that of the table of file systems.
pub fn tables_written(crypttab: Result<(), Cause>, fstab: Result<(), Cause>) -> (outcome: Result<
    (),
    Cause,
>)
    ensures
        outcome_model(outcome) == match outcome_model(crypttab) {
            Err(c) => Err(c),
            Ok(_) => outcome_model(fstab),
        },
{
    match crypttab {
        Err(c) => Err(c),
        Ok(()) => fstab,
    }
}

/// A file system as it is named in the table of file systems.
pub open spec fn table_type(fs: FileSystemType) -> Seq<char> {
    if is_fat(fs) {
        "vfat"@
    } else if fs == FileSystemType::Swap {
        "swap"@
    } else {
        fs_name(fs)
    }
}

/// What the tables know of a partition, as the mathematical model has it.
pub struct BlockModel {
    pub uuid: Seq<u8>,
    pub mount: Option<Seq<u8>>,
    pub fs: Seq<char>,
}

/// What the tables know of a partition: its identifier, where it is
/// mounted, and the type of its file system.
#[derive(Debug)]
pub struct BlockInfo {
    pub uuid: Vec<u8>,
    pub mount: Option<Vec<u8>>,
    pub fs: &'static str,
}

impl View for BlockInfo {
    type V = BlockModel;

    open spec fn view(&self) -> BlockModel {
        BlockModel { uuid: self.uuid@, mount: crate::disk::opt_bytes(self.mount), fs: self.fs@ }
    }
}

/// The models of the entries of `v`, in order.
pub open spec fn block_models(v: Seq<BlockInfo>) -> Seq<BlockModel> {
    Seq::new(v.len(), |i: int| v[i]@)
}

/// What the tables know of a partition with the given identifier. A
/// partition without identifier is not in the tables, nor is one that is
/// no swap space and lacks a target or a file system. Swap space is mounted
/// nowhere.
pub open spec fn block_of(p: PartitionModel, uuid: Option<Seq<u8>>) -> Option<BlockModel> {
    if p.filesystem != Some(FileSystemType::Swap) && (p.target is None || p.filesystem is None) {
        None
    } else {
        match uuid {
            None => None,
            Some(id) => Some(
                BlockModel {
                    uuid: id,
                    mount: if p.filesystem == Some(FileSystemType::Swap) {
                        None
                    } else {
                        p.target
                    },
                    fs: table_type(p.filesystem->0),
                },
            ),
        }
    }
}

/// What the tables know of the partition, given the identifier that was
/// found for its device, if one was found.
pub fn block_info(part: &PartitionInfo, uuid: Option<Vec<u8>>) -> (info: Option<BlockInfo>)
    ensures
        match info {
            Some(b) => block_of(part@, crate::disk::opt_bytes(uuid)) == Some(b@),
            None => block_of(part@, crate::disk::opt_bytes(uuid)) is None,
        },
{
    let fs = match part.filesystem {
        Some(fs) => fs,
        None => {
            return None;
        },
    };
    let swap = match fs {
        FileSystemType::Swap => true,
        _ => false,
    };
    if !swap && part.target.is_none() {
        return None;
    }
    let id = match uuid {
        Some(id) => id,
        None => {
            return None;
        },
    };
    let mount = if swap {
        None
    } else {
        match &part.target {
            Some(t) => Some(copy_bytes(t.as_slice())),
            None => None,
        }
    };
    let name = match fs {
        FileSystemType::Fat12 | FileSystemType::Fat16 | FileSystemType::Fat32 => "vfat",
        FileSystemType::Swap => "swap",
        other => other.name(),
    };
    Some(BlockInfo { uuid: id, mount, fs: name })
}

/// The place of the first entry that is mounted at the root, or the number
/// of entries where none is.
pub open spec fn root_position(entries: Seq<BlockModel>) -> int
    decreases entries.len(),
{
    if entries.len() == 0 || entries[0].mount == Some(seq![SLASH]) {
        0
    } else {
        1 + root_position(entries.drop_first())
    }
}

/// The failure that reports that no entry is mounted at the root.
pub open spec fn root_not_found() -> CauseModel {
    CauseModel { kind: ErrorKind::Other, message: "root partition not found"@ }
}

/// The entry of the root file system: the first of the entries that is
/// mounted at `/`. The entries come in the order of the search, those of
/// the physical devices before those of the logical ones.
pub fn root_entry(entries: &Vec<BlockInfo>) -> (root: Result<&BlockInfo, Cause>)
    ensures
        match root {
            Ok(b) => {
                let i = root_position(block_models(entries@));
                i < entries.len() && b@ == block_models(entries@)[i]
            },
            Err(c) => root_position(block_models(entries@)) == entries.len() && c@
                == root_not_found(),
        },
{
    let ghost all = block_models(entries@);
    let mut i: usize = 0;
    assert(all.skip(0) =~= all);
    while i < entries.len()
        invariant
            0 <= i <= entries.len(),
            all == block_models(entries@),
            root_position(all) == i + root_position(all.skip(i as int)),
        decreases entries.len() - i,
    {
        proof {
            assert(all.skip(i as int)[0] == all[i as int]);
            assert(all.skip(i as int).drop_first() =~= all.skip(i + 1));
        }
        if let Some(m) = &entries[i].mount {
            if m.len() == 1 && m[0] == SLASH {
                assert(m@ =~= seq![SLASH]);
                return Ok(&entries[i]);
            }
            assert(m@ != seq![SLASH]) by {
                if m@ == seq![SLASH] {
                    assert(seq![SLASH].len() == 1 && seq![SLASH][0] == SLASH);
                }
            }
        }
        i += 1;
    }
    Err(Cause::new(ErrorKind::Other, "root partition not found"))
}

/// The identifier of the encrypted container that holds the root file
/// system: the identifier that following the root's device down to the
/// physical partition led to, unless that led nowhere or back to the root's
/// own identifier; then the root is not encrypted.
pub open spec fn luks_of(root_uuid: Seq<u8>, resolved: Option<Seq<u8>>) -> Option<Seq<u8>> {
    match resolved {
        Some(id) if id != root_uuid => Some(id),
        _ => None,
    }
}

/// The identifier of the encrypted container that holds the root file
/// system, if the root is encrypted.
pub fn luks_uuid(root_uuid: &[u8], resolved: Option<Vec<u8>>) -> (luks: Option<Vec<u8>>)
    ensures
        crate::disk::opt_bytes(luks) == luks_of(root_uuid@, crate::disk::opt_bytes(resolved)),
{
    match resolved {
        Some(id) => {
            if bytes_eq(id.as_slice(), root_uuid) {
                None
            } else {
                Some(id)
            }
        },
        None => None,
    }
}

/// One argument made of a name and a value.
pub open spec fn setting(name: Seq<char>, value: Seq<u8>) -> Seq<u8> {
    bytes(name) + value
}

/// The value of an optional text, or nothing.
pub open spec fn opt_text(o: Option<String>) -> Option<Seq<u8>> {
    match o {
        Some(s) => Some(bytes(s@)),
        None => None,
    }
}

/// One argument where the value is there, none where it is not.
pub open spec fn opt_setting(name: Seq<char>, value: Option<Seq<u8>>) -> Seq<Seq<u8>> {
    match value {
        Some(v) => seq![setting(name, v)],
        None => Seq::empty(),
    }
}

/// The packages, each marked for removal.
pub open spec fn removals(packages: Seq<Seq<u8>>) -> Seq<Seq<u8>> {
    Seq::new(packages.len(), |i: int| bytes("-"@) + packages[i])
}

/// What the environment-clearing runner is handed: the switch that clears
/// the environment; the hostname, the locale and the keyboard layout; the
/// mark for the graphics workaround, the keyboard model and the keyboard
/// variant where there are any; the identifiers of the root and of its
/// encrypted container, the latter empty where there is none; the shell and
/// the script; the packages to install; the packages to remove, each
/// marked.
pub open spec fn script_args(
    hostname: Seq<u8>,
    lang: Seq<u8>,
    layout: Seq<u8>,
    model: Option<Seq<u8>>,
    variant: Option<Seq<u8>>,
    disable_nvidia: bool,
    root_uuid: Seq<u8>,
    luks_uuid: Option<Seq<u8>>,
    script: Seq<u8>,
    install: Seq<Seq<u8>>,
    remove: Seq<Seq<u8>>,
) -> Seq<Seq<u8>> {
    seq![
        bytes("-i"@),
        setting("HOSTNAME="@, hostname),
        setting("LANG="@, lang),
        setting("KBD_LAYOUT="@, layout),
    ] + (if disable_nvidia {
        seq![bytes("DISABLE_NVIDIA=1"@)]
    } else {
        Seq::empty()
    }) + opt_setting("KBD_MODEL="@, model) + opt_setting("KBD_VARIANT="@, variant) + seq![
        setting("ROOT_UUID="@, root_uuid),
        setting(
            "LUKS_UUID="@,
            match luks_uuid {
                Some(id) => id,
                None => Seq::empty(),
            },
        ),
        bytes("bash"@),
        script,
    ] + install + removals(remove)
}

/// An argument made of a name and a value.
fn make_setting(name: &str, value: &[u8]) -> (arg: Vec<u8>)
    ensures
        arg@ == setting(name@, value@),
{
    let mut arg = to_bytes(name);
    push_bytes(&mut arg, value);
    arg
}

/// Adds copies of the items to the arguments.
fn push_all(args: &mut Vec<Vec<u8>>, items: &Vec<Vec<u8>>)
    ensures
        views(final(args)@) == views(old(args)@) + views(items@),
{
    let ghost start = views(args@);
    let mut i: usize = 0;
    assert(start + views(items@).take(0) =~= start);
    while i < items.len()
        invariant
            0 <= i <= items.len(),
            views(args@) == start + views(items@).take(i as int),
        decreases items.len() - i,
    {
        let ghost before = views(args@);
        args.push(copy_bytes(items[i].as_slice()));
        assert(views(args@) =~= before.push(items@[i as int]@));
        assert(views(items@).take(i + 1) =~= views(items@).take(i as int).push(
            items@[i as int]@,
        ));
        i += 1;
    }
    assert(views(items@).take(items.len() as int) =~= views(items@));
}

/// Adds the items to the arguments, each marked for removal.
fn push_removals(args: &mut Vec<Vec<u8>>, items: &Vec<Vec<u8>>)
    ensures
        views(final(args)@) == views(old(args)@) + removals(views(items@)),
{
    let ghost start = views(args@);
    let ghost goal = removals(views(items@));
    let mut i: usize = 0;
    assert(start + goal.take(0) =~= start);
    while i < items.len()
        invariant
            0 <= i <= items.len(),
            goal == removals(views(items@)),
            views(args@) == start + goal.take(i as int),
        decreases items.len() - i,
    {
        let ghost before = views(args@);
        let arg = make_setting("-", items[i].as_slice());
        args.push(arg);
        assert(views(args@) =~= before.push(goal[i as int]));
        assert(goal.take(i + 1) =~= goal.take(i as int).push(goal[i as int]));
        i += 1;
    }
    assert(goal.take(items.len() as int) =~= goal);
}

impl Installer {
    /// What writing the files of the configuration step comes to, given how
    /// the four writers ended.
    pub fn configure_files(
        script: Result<(), Cause>,
        graphics: Result<bool, Cause>,
        lvm: Result<(), Cause>,
        tables: Result<(), Cause>,
    ) -> (outcome: Result<bool, Cause>)
        ensures
            flag_outcome(outcome) == files_written(
                outcome_model(script),
                flag_outcome(graphics),
                outcome_model(lvm),
                outcome_model(tables),
            ),
    {
        match script {
            Err(c) => Err(c),
            Ok(()) => match lvm {
                Err(c) => Err(c),
                Ok(()) => match tables {
                    Err(c) => Err(c),
                    Ok(()) => graphics,
                },
            },
        }
    }

    /// The call that configures the installed system from inside its root
    /// directory: the runner that clears the environment, handed the
    /// settings, the shell, the script and the packages.
    pub fn configure(
        config: &Config,
        disable_nvidia: bool,
        root_uuid: &[u8],
        luks_uuid: &Option<Vec<u8>>,
        script: &[u8],
        install_pkgs: &Vec<Vec<u8>>,
        remove_pkgs: &Vec<Vec<u8>>,
    ) -> (call: Command)
        ensures
            call@ == (CommandModel {
                program: bytes("/usr/bin/env"@),
                args: script_args(
                    bytes(config.hostname@),
                    bytes(config.lang@),
                    bytes(config.keyboard_layout@),
                    opt_text(config.keyboard_model),
                    opt_text(config.keyboard_variant),
                    disable_nvidia,
                    root_uuid@,
                    crate::disk::opt_bytes(*luks_uuid),
                    script@,
                    views(install_pkgs@),
                    views(remove_pkgs@),
                ),
            }),
    {
        let mut args: Vec<Vec<u8>> = Vec::new();
        args.push(to_bytes("-i"));
        args.push(make_setting("HOSTNAME=", config.hostname.as_str().as_bytes()));
        args.push(make_setting("LANG=", config.lang.as_str().as_bytes()));
        args.push(make_setting("KBD_LAYOUT=", config.keyboard_layout.as_str().as_bytes()));
        let ghost head = views(args@);
        assert(head =~= seq![
            bytes("-i"@),
            setting("HOSTNAME="@, bytes(config.hostname@)),
            setting("LANG="@, bytes(config.lang@)),
            setting("KBD_LAYOUT="@, bytes(config.keyboard_layout@)),
        ]);
        if disable_nvidia {
            args.push(to_bytes("DISABLE_NVIDIA=1"));
        }
        let ghost marked = views(args@);
        assert(marked =~= head + (if disable_nvidia {
            seq![bytes("DISABLE_NVIDIA=1"@)]
        } else {
            Seq::empty()
        }));
        if let Some(model) = &config.keyboard_model {
            args.push(make_setting("KBD_MODEL=", model.as_str().as_bytes()));
        }
        let ghost modelled = views(args@);
        assert(modelled =~= marked + opt_setting("KBD_MODEL="@, opt_text(config.keyboard_model)));
        if let Some(variant) = &config.keyboard_variant {
            args.push(make_setting("KBD_VARIANT=", variant.as_str().as_bytes()));
        }
        let ghost varied = views(args@);
        assert(varied =~= modelled + opt_setting(
            "KBD_VARIANT="@,
            opt_text(config.keyboard_variant),
        ));
        args.push(make_setting("ROOT_UUID=", root_uuid));
        let luks = match luks_uuid {
            Some(id) => make_setting("LUKS_UUID=", id.as_slice()),
            None => {
                let arg = to_bytes("LUKS_UUID=");
                assert(arg@ =~= setting("LUKS_UUID="@, Seq::empty()));
                arg
            },
        };
        args.push(luks);
        args.push(to_bytes("bash"));
        args.push(copy_bytes(script));
        let ghost fixed = views(args@);
        assert(fixed =~= varied + seq![
            setting("ROOT_UUID="@, root_uuid@),
            setting(
                "LUKS_UUID="@,
                match crate::disk::opt_bytes(*luks_uuid) {
                    Some(id) => id,
                    None => Seq::empty(),
                },
            ),
            bytes("bash"@),
            script@,
        ]);
        push_all(&mut args, install_pkgs);
        push_removals(&mut args, remove_pkgs);
        assert(views(args@) =~= fixed + views(install_pkgs@) + removals(views(remove_pkgs@)));
        assert(views(args@) =~= script_args(
            bytes(config.hostname@),
            bytes(config.lang@),
            bytes(config.keyboard_layout@),
            opt_text(config.keyboard_model),
            opt_text(config.keyboard_variant),
            disable_nvidia,
            root_uuid@,
            crate::disk::opt_bytes(*luks_uuid),
            script@,
            views(install_pkgs@),
            views(remove_pkgs@),
        ));
        Command { program: to_bytes("/usr/bin/env"), args }
    }
}

/// One piece of letting go, as the mathematical model has it.
pub enum ReleaseModel {
    Unmount(Seq<u8>),
    RemoveDir(Seq<u8>),
    LeaveChroot,
}

/// One piece of letting go of what the configuration step holds.
#[derive(Debug)]
pub enum ReleaseAction {
    /// Release the bind mount at this place.
    Unmount(Vec<u8>),
    /// Remove the empty directory at this place.
    RemoveDir(Vec<u8>),
    /// Leave the root directory of the installation.
    LeaveChroot,
}

impl View for ReleaseAction {
    type V = ReleaseModel;

    open spec fn view(&self) -> ReleaseModel {
        match self {
            ReleaseAction::Unmount(p) => ReleaseModel::Unmount(p@),
            ReleaseAction::RemoveDir(p) => ReleaseModel::RemoveDir(p@),
            ReleaseAction::LeaveChroot => ReleaseModel::LeaveChroot,
        }
    }
}

/// The models of the actions of `v`, in order.
pub open spec fn release_models(v: Seq<ReleaseAction>) -> Seq<ReleaseModel> {
    Seq::new(v.len(), |i: int| v[i]@)
}

/// What a mount or none holds.
pub open spec fn opt_mount(m: Option<Mount>) -> Option<MountModel> {
    match m {
        Some(m) => Some(m@),
        None => None,
    }
}

/// The order of letting go: the binding of the installation medium first,
/// the binding of the firmware's variables second, then the place where
/// the medium was shown, and the root directory last.
pub open spec fn release_of(cdrom: Option<MountModel>, efivars: Option<MountModel>) -> Seq<
    ReleaseModel,
> {
    (match cdrom {
        Some(m) => seq![ReleaseModel::Unmount(m.dest)],
        None => Seq::empty(),
    }) + (match efivars {
        Some(m) => seq![ReleaseModel::Unmount(m.dest)],
        None => Seq::empty(),
    }) + (match cdrom {
        Some(m) => seq![ReleaseModel::RemoveDir(m.dest)],
        None => Seq::empty(),
    }) + seq![ReleaseModel::LeaveChroot]
}

/// The order in which the step lets go of its bind mounts and of the root
/// directory of the installation.
pub fn release_plan(cdrom: &Option<Mount>, efivars: &Option<Mount>) -> (plan: Vec<ReleaseAction>)
    ensures
        release_models(plan@) == release_of(opt_mount(*cdrom), opt_mount(*efivars)),
{
    let mut plan: Vec<ReleaseAction> = Vec::new();
    if let Some(m) = cdrom {
        plan.push(ReleaseAction::Unmount(copy_bytes(m.dest.as_slice())));
    }
    if let Some(m) = efivars {
        plan.push(ReleaseAction::Unmount(copy_bytes(m.dest.as_slice())));
    }
    if let Some(m) = cdrom {
        plan.push(ReleaseAction::RemoveDir(copy_bytes(m.dest.as_slice())));
    }
    plan.push(ReleaseAction::LeaveChroot);
    assert(release_models(plan@) =~= release_of(opt_mount(*cdrom), opt_mount(*efivars)));
    plan
}

} // verus!
