use distinst::backup::{backup_plan, ReinstallError};
use distinst::bootloader::{decimal, efi_path, BootTarget};
use distinst::command::Command;
use distinst::configure::{
    block_info, fstab_file, fstab_header, install_packages, luks_uuid, release_plan, root_entry,
    tables_written, BlockInfo, ReleaseAction,
};
use distinst::disk::{Bootloader, Disk, Disks, FileSystemType, PartitionInfo, PartitionType};
use distinst::installer::{
    Cause, Config, ErrorKind, Installer, INSTALL_HARDWARE_SUPPORT, MODIFY_BOOT_ORDER,
};
use distinst::mount::{mount_cdrom, mount_efivars};

fn b(text: &str) -> Vec<u8> {
    text.as_bytes().to_vec()
}

fn list(items: &[&str]) -> Vec<Vec<u8>> {
    items.iter().map(|i| b(i)).collect()
}

fn texts(items: &[Vec<u8>]) -> Vec<String> {
    items.iter().map(|i| String::from_utf8(i.clone()).unwrap()).collect()
}

fn err(message: &str) -> Cause {
    Cause::new(ErrorKind::Other, message)
}

fn config(flags: u8) -> Config {
    Config {
        hostname: "pop-os".to_string(),
        keyboard_layout: "us".to_string(),
        keyboard_model: None,
        keyboard_variant: None,
        old_root: None,
        lang: "en_US.UTF-8".to_string(),
        remove: "/cdrom/casper/filesystem.manifest-remove".to_string(),
        squashfs: "/cdrom/casper/filesystem.squashfs".to_string(),
        flags,
    }
}

fn part(number: i32, device: &str, fs: Option<FileSystemType>, target: Option<&str>) -> PartitionInfo {
    PartitionInfo {
        number,
        start_sector: 0,
        end_sector: 1,
        part_type: PartitionType::Primary,
        filesystem: fs,
        flags: Vec::new(),
        name: None,
        device_path: b(device),
        mount_point: None,
        target: target.map(b),
        format: false,
    }
}

fn disk(device: &str, partitions: Vec<PartitionInfo>) -> Disk {
    Disk { device_path: b(device), file_system: None, partitions }
}

fn call_text(call: &Command) -> String {
    let mut words = vec![String::from_utf8(call.program.clone()).unwrap()];
    words.extend(texts(&call.args));
    words.join(" ")
}

#[test]
fn the_boot_loader_decides_the_package() {
    let none = Vec::new();
    let plain = config(0);
    assert_eq!(texts(&install_packages(Bootloader::Bios, b"Pop!_OS", &plain, &none)), vec!["grub-pc"]);
    assert_eq!(texts(&install_packages(Bootloader::Efi, b"Pop!_OS", &plain, &none)), vec!["kernelstub"]);
    assert_eq!(texts(&install_packages(Bootloader::Efi, b"Ubuntu", &plain, &none)), vec!["grub-efi"]);
    assert_eq!(texts(&install_packages(Bootloader::Efi, b"Pop!_OS ", &plain, &none)), vec!["grub-efi"]);
}

#[test]
fn hardware_packages_are_added_only_where_asked_for() {
    let hardware = list(&["system76-driver", "nvidia-driver"]);
    let with = config(INSTALL_HARDWARE_SUPPORT);
    assert_eq!(
        texts(&install_packages(Bootloader::Bios, b"Pop!_OS", &with, &hardware)),
        vec!["grub-pc", "system76-driver", "nvidia-driver"]
    );
    let without = config(MODIFY_BOOT_ORDER);
    assert_eq!(texts(&install_packages(Bootloader::Bios, b"Pop!_OS", &without, &hardware)), vec!["grub-pc"]);
    assert!(with.install_hardware_support());
    assert!(!with.modify_boot_order());
    assert!(without.modify_boot_order());
    assert!(config(3).modify_boot_order() && config(3).install_hardware_support());
    assert_eq!(MODIFY_BOOT_ORDER, 1);
    assert_eq!(INSTALL_HARDWARE_SUPPORT, 2);
}

#[test]
fn the_script_is_handed_the_settings_in_order() {
    let call = Installer::configure(
        &config(0),
        false,
        b"root-uuid",
        &None,
        b"tmp/distinst.abc/configure.sh",
        &list(&["kernelstub"]),
        &list(&["ubiquity", "casper"]),
    );
    assert_eq!(call.program, b("/usr/bin/env"));
    assert_eq!(
        texts(&call.args),
        vec![
            "-i",
            "HOSTNAME=pop-os",
            "LANG=en_US.UTF-8",
            "KBD_LAYOUT=us",
            "ROOT_UUID=root-uuid",
            "LUKS_UUID=",
            "bash",
            "tmp/distinst.abc/configure.sh",
            "kernelstub",
            "-ubiquity",
            "-casper"
        ]
    );
}

#[test]
fn optional_settings_stand_where_they_belong() {
    let mut full = config(0);
    full.keyboard_model = Some("pc105".to_string());
    full.keyboard_variant = Some("dvorak".to_string());
    full.hostname = "zoë".to_string();
    let call = Installer::configure(
        &full,
        true,
        b"r",
        &Some(b("l")),
        b"s",
        &Vec::new(),
        &Vec::new(),
    );
    assert_eq!(
        texts(&call.args),
        vec![
            "-i",
            "HOSTNAME=zoë",
            "LANG=en_US.UTF-8",
            "KBD_LAYOUT=us",
            "DISABLE_NVIDIA=1",
            "KBD_MODEL=pc105",
            "KBD_VARIANT=dvorak",
            "ROOT_UUID=r",
            "LUKS_UUID=l",
            "bash",
            "s"
        ]
    );
    let mut variant_only = config(0);
    variant_only.keyboard_variant = Some("intl".to_string());
    let call = Installer::configure(&variant_only, false, b"r", &None, b"s", &Vec::new(), &Vec::new());
    assert_eq!(texts(&call.args)[4], "KBD_VARIANT=intl");
    assert_eq!(texts(&call.args)[5], "ROOT_UUID=r");
}

#[test]
fn the_files_of_the_step_fail_in_a_fixed_order() {
    let order = ["script", "lvm", "tables", "graphics"];
    for mask in 0u8..15 {
        let ok = |bit: u8| mask & (1 << bit) != 0;
        let unit = |bit: u8, name: &str| if ok(bit) { Ok(()) } else { Err(err(name)) };
        let graphics = if ok(3) { Ok(true) } else { Err(err("graphics")) };
        let outcome = Installer::configure_files(unit(0, "script"), graphics, unit(1, "lvm"), unit(2, "tables"));
        let expected = order[(0..4).find(|bit| !ok(*bit)).unwrap() as usize];
        assert_eq!(outcome.unwrap_err().message, expected);
    }
    assert_eq!(Installer::configure_files(Ok(()), Ok(true), Ok(()), Ok(())).unwrap(), true);
    assert_eq!(Installer::configure_files(Ok(()), Ok(false), Ok(()), Ok(())).unwrap(), false);
    assert_eq!(tables_written(Err(err("crypttab")), Err(err("fstab"))).unwrap_err().message, "crypttab");
    assert_eq!(tables_written(Ok(()), Err(err("fstab"))).unwrap_err().message, "fstab");
    assert!(tables_written(Ok(()), Ok(())).is_ok());
}

#[test]
fn the_table_of_file_systems_starts_with_the_header() {
    let header = fstab_header();
    assert!(header.starts_with("# /etc/fstab: static file system information.\n#\n# Use 'blkid'"));
    assert!(header.ends_with("# <file system>  <mount point>  <type>  <options>  <dump>  <pass>\n"));
    assert_eq!(header.lines().count(), 7);
    let file = fstab_file(b"UUID=abc  /  ext4  noatime  0  0\n");
    assert_eq!(file, format!("{}{}", header, "UUID=abc  /  ext4  noatime  0  0\n").into_bytes());
    assert_eq!(fstab_file(b""), header.as_bytes().to_vec());
}

#[test]
fn the_tables_know_partitions_with_identifier_target_and_file_system() {
    let root = part(2, "/dev/sda2", Some(FileSystemType::Ext4), Some("/"));
    let info = block_info(&root, Some(b("uuid-2"))).unwrap();
    assert_eq!(info.uuid, b("uuid-2"));
    assert_eq!(info.mount, Some(b("/")));
    assert_eq!(info.fs, "ext4");
    assert!(block_info(&root, None).is_none());

    let esp = part(1, "/dev/sda1", Some(FileSystemType::Fat32), Some("/boot/efi"));
    assert_eq!(block_info(&esp, Some(b("AAAA-BBBB"))).unwrap().fs, "vfat");
    let old = part(1, "/dev/sda1", Some(FileSystemType::Fat12), Some("/boot/efi"));
    assert_eq!(block_info(&old, Some(b("AAAA-BBBB"))).unwrap().fs, "vfat");

    let swap = part(3, "/dev/sda3", Some(FileSystemType::Swap), None);
    let info = block_info(&swap, Some(b("uuid-3"))).unwrap();
    assert_eq!(info.mount, None);
    assert_eq!(info.fs, "swap");
    let swap_with_target = part(3, "/dev/sda3", Some(FileSystemType::Swap), Some("/odd"));
    assert_eq!(block_info(&swap_with_target, Some(b("uuid-3"))).unwrap().mount, None);

    assert!(block_info(&part(4, "/dev/sda4", Some(FileSystemType::Ext4), None), Some(b("u"))).is_none());
    assert!(block_info(&part(5, "/dev/sda5", None, Some("/data")), Some(b("u"))).is_none());
    assert!(block_info(&part(6, "/dev/sda6", None, None), Some(b("u"))).is_none());
}

fn info(uuid: &str, mount: Option<&str>) -> BlockInfo {
    BlockInfo { uuid: b(uuid), mount: mount.map(b), fs: "ext4" }
}

#[test]
fn the_root_is_the_first_entry_mounted_at_the_root() {
    let entries = vec![info("a", Some("/boot")), info("b", None), info("c", Some("/")), info("d", Some("/"))];
    assert_eq!(root_entry(&entries).unwrap().uuid, b("c"));
    let none = vec![info("a", Some("/boot")), info("b", Some("//")), info("c", Some(""))];
    let cause = root_entry(&none).unwrap_err();
    assert_eq!(cause.kind, ErrorKind::Other);
    assert_eq!(cause.message, "root partition not found");
    assert!(root_entry(&Vec::new()).is_err());
}

#[test]
fn the_root_is_encrypted_only_where_the_trail_leads_elsewhere() {
    assert_eq!(luks_uuid(b"root", Some(b("container"))), Some(b("container")));
    assert_eq!(luks_uuid(b"root", Some(b("root"))), None);
    assert_eq!(luks_uuid(b"root", None), None);
}

fn release_text(plan: &[ReleaseAction]) -> Vec<String> {
    plan.iter()
        .map(|a| match a {
            ReleaseAction::Unmount(p) => format!("unmount {}", String::from_utf8_lossy(p)),
            ReleaseAction::RemoveDir(p) => format!("rmdir {}", String::from_utf8_lossy(p)),
            ReleaseAction::LeaveChroot => "leave".to_string(),
        })
        .collect()
}

#[test]
fn the_medium_is_released_before_the_variables_and_the_chroot_last() {
    let cdrom = mount_cdrom(b"/tmp/x", true);
    let efivars = mount_efivars(b"/tmp/x", true);
    assert_eq!(
        release_text(&release_plan(&cdrom, &efivars)),
        vec![
            "unmount /tmp/x/cdrom",
            "unmount /tmp/x/sys/firmware/efi/efivars",
            "rmdir /tmp/x/cdrom",
            "leave"
        ]
    );
    assert_eq!(
        release_text(&release_plan(&None, &efivars)),
        vec!["unmount /tmp/x/sys/firmware/efi/efivars", "leave"]
    );
    assert_eq!(release_text(&release_plan(&cdrom, &None)), vec!["unmount /tmp/x/cdrom", "rmdir /tmp/x/cdrom", "leave"]);
    assert_eq!(release_text(&release_plan(&None, &None)), vec!["leave"]);
}

#[test]
fn numbers_are_written_in_decimal() {
    assert_eq!(decimal(0), b("0"));
    assert_eq!(decimal(7), b("7"));
    assert_eq!(decimal(10), b("10"));
    assert_eq!(decimal(128), b("128"));
    assert_eq!(decimal(-1), b("-1"));
    assert_eq!(decimal(-305), b("-305"));
    assert_eq!(decimal(i32::MAX), b("2147483647"));
    assert_eq!(decimal(i32::MIN), b("-2147483648"));
}

fn layout(with_esp: bool) -> Disks {
    let mut first = vec![part(1, "/dev/sda1", Some(FileSystemType::Ext4), Some("/home"))];
    let mut second = vec![part(1, "/dev/sdb1", Some(FileSystemType::Swap), None)];
    if with_esp {
        second.push(part(7, "/dev/sdb7", Some(FileSystemType::Fat32), Some("/boot/efi")));
    }
    first.push(part(2, "/dev/sda2", Some(FileSystemType::Ext4), Some("/")));
    Disks { physical: vec![disk("/dev/sda", first), disk("/dev/sdb", second)], logical: Vec::new() }
}

#[test]
fn the_boot_loader_goes_to_the_device_of_the_system_partition() {
    let target = Installer::boot_target(&layout(true)).unwrap();
    assert_eq!(target.device, b("/dev/sdb"));
    assert_eq!(target.esp, Some(7));
    let target = Installer::boot_target(&layout(false)).unwrap();
    assert_eq!(target.device, b("/dev/sda"));
    assert_eq!(target.esp, None);
    let empty = Disks { physical: Vec::new(), logical: Vec::new() };
    assert!(Installer::boot_target(&empty).is_none());
}

#[test]
fn logical_devices_are_searched_after_physical_ones() {
    let disks = Disks {
        physical: vec![disk("/dev/sda", vec![part(1, "/dev/sda1", Some(FileSystemType::Lvm), None)])],
        logical: vec![disk("/dev/mapper/data", vec![part(3, "/dev/mapper/data-root", Some(FileSystemType::Ext4), Some("/"))])],
    };
    let target = Installer::boot_target(&disks).unwrap();
    assert_eq!(target.device, b("/dev/mapper/data"));
    assert_eq!(target.esp, None);
}

#[test]
fn bios_installs_grub_for_the_fixed_architecture() {
    let target = BootTarget { device: b("/dev/sda"), esp: None };
    let calls = Installer::bootloader(Bootloader::Bios, &target, &config(MODIFY_BOOT_ORDER), b"Pop!_OS 18.04");
    assert_eq!(calls.len(), 1);
    assert_eq!(call_text(&calls[0]), "grub-install --recheck --target=i386-pc /dev/sda");
    assert_eq!(Installer::efi_directory(Bootloader::Bios, &target, b"/tmp/x"), None);
}

#[test]
fn efi_installs_the_boot_manager_and_rewrites_the_order_only_on_request() {
    let target = BootTarget { device: b("/dev/nvme0n1"), esp: Some(1) };
    let calls = Installer::bootloader(Bootloader::Efi, &target, &config(0), b"Pop!_OS 18.04");
    assert_eq!(calls.len(), 1);
    assert_eq!(call_text(&calls[0]), "bootctl install --path=/boot/efi --no-variables");

    let calls = Installer::bootloader(Bootloader::Efi, &target, &config(MODIFY_BOOT_ORDER), b"Pop!_OS 18.04");
    assert_eq!(calls.len(), 2);
    assert_eq!(call_text(&calls[0]), "bootctl install --path=/boot/efi --no-variables");
    assert_eq!(calls[1].program, b("efibootmgr"));
    assert_eq!(
        texts(&calls[1].args),
        vec![
            "--create",
            "--disk",
            "/dev/nvme0n1",
            "--part",
            "1",
            "--write-signature",
            "--label",
            "Pop!_OS 18.04",
            "--loader",
            "\\EFI\\systemd\\systemd-bootx64.efi"
        ]
    );
    assert_eq!(Installer::efi_directory(Bootloader::Efi, &target, b"/tmp/x"), Some(b("/tmp/x/boot/efi/")));
    let rootonly = BootTarget { device: b("/dev/sda"), esp: None };
    assert_eq!(Installer::efi_directory(Bootloader::Efi, &rootonly, b"/tmp/x"), None);
    let calls = Installer::bootloader(Bootloader::Efi, &rootonly, &config(MODIFY_BOOT_ORDER), b"X");
    assert_eq!(texts(&calls[1].args)[4], "0");
    assert_eq!(efi_path(b"/tmp/x/"), b("/tmp/x/boot/efi/"));
}

fn retained(format_home: bool, with_home: bool) -> Disks {
    let mut parts = vec![part(2, "/dev/sda2", Some(FileSystemType::Ext4), Some("/"))];
    if with_home {
        let mut home = part(3, "/dev/sda3", Some(FileSystemType::Btrfs), Some("/home"));
        home.format = format_home;
        parts.push(home);
    }
    Disks { physical: vec![disk("/dev/sda", parts)], logical: Vec::new() }
}

#[test]
fn a_home_that_would_be_formatted_is_refused_and_nothing_is_changed() {
    let disks = retained(true, true);
    let before = format!("{:?}", disks);
    let old_root = part(2, "/dev/sda2", Some(FileSystemType::Ext4), None);
    assert_eq!(backup_plan(&disks, Some(&old_root)).unwrap_err(), ReinstallError::ReformattingHome);
    assert_eq!(format!("{:?}", disks), before);
    let cause = ReinstallError::ReformattingHome.cause();
    assert_eq!(cause.kind, ErrorKind::Other);
    assert_eq!(cause.message, "supplied disk configuration will format /home when it should not");
}

#[test]
fn a_home_on_the_old_root_is_refused_when_the_old_root_is_formatted() {
    let disks = retained(false, false);
    let mut old_root = part(2, "/dev/sda2", Some(FileSystemType::Ext4), None);
    old_root.format = true;
    assert_eq!(backup_plan(&disks, Some(&old_root)).unwrap_err(), ReinstallError::ReformattingHome);
}

#[test]
fn a_home_of_its_own_is_kept_where_it_is() {
    let disks = retained(false, true);
    let old_root = part(5, "/dev/sdb5", Some(FileSystemType::Xfs), None);
    let plan = backup_plan(&disks, Some(&old_root)).unwrap();
    assert_eq!(plan.home_path, b("/dev/sda3"));
    assert_eq!(plan.home_fs, FileSystemType::Btrfs);
    assert!(!plan.home_is_root);
    assert_eq!(plan.old_root_path, b("/dev/sdb5"));
    assert_eq!(plan.old_root_fs, FileSystemType::Xfs);
    assert_eq!(plan.root_path, b("/dev/sda2"));
    assert_eq!(plan.root_fs, FileSystemType::Ext4);
}

#[test]
fn a_home_on_the_old_root_is_found_there() {
    let disks = retained(false, false);
    let old_root = part(5, "/dev/sdb5", Some(FileSystemType::Xfs), None);
    let plan = backup_plan(&disks, Some(&old_root)).unwrap();
    assert_eq!(plan.home_path, b("/dev/sdb5"));
    assert_eq!(plan.home_fs, FileSystemType::Xfs);
    assert!(plan.home_is_root);
}

#[test]
fn missing_roots_and_file_systems_are_refused_in_order() {
    let old_root = part(2, "/dev/sda2", Some(FileSystemType::Ext4), None);
    assert_eq!(backup_plan(&retained(true, true), None).unwrap_err(), ReinstallError::NoRootPartition);
    let rootless = Disks {
        physical: vec![disk("/dev/sda", vec![part(3, "/dev/sda3", Some(FileSystemType::Ext4), Some("/home"))])],
        logical: Vec::new(),
    };
    assert_eq!(backup_plan(&rootless, Some(&old_root)).unwrap_err(), ReinstallError::NoRootPartition);

    let mut bare_root = retained(false, true);
    bare_root.physical[0].partitions[0].filesystem = None;
    assert_eq!(backup_plan(&bare_root, Some(&old_root)).unwrap_err(), ReinstallError::NoFilesystem);
    let bare_old = part(2, "/dev/sda2", None, None);
    assert_eq!(backup_plan(&retained(false, true), Some(&bare_old)).unwrap_err(), ReinstallError::NoFilesystem);
    let mut bare_home = retained(false, true);
    bare_home.physical[0].partitions[1].filesystem = None;
    assert_eq!(backup_plan(&bare_home, Some(&old_root)).unwrap_err(), ReinstallError::NoFilesystem);
    // The formatting of the home is looked at before the file systems.
    let mut both = retained(true, true);
    both.physical[0].partitions[0].filesystem = None;
    assert_eq!(backup_plan(&both, Some(&old_root)).unwrap_err(), ReinstallError::ReformattingHome);
    assert_eq!(ReinstallError::NoRootPartition.cause().message, "no root partition found within the configuration");
    assert_eq!(ReinstallError::NoFilesystem.cause().message, "no file system was found on the partition");
}
