use distinst::disk::{Disk, Disks, FileSystemType, PartitionInfo, PartitionType};
use distinst::installer::Installer;
use distinst::mount::{mount_bind_if_exists, mount_cdrom, mount_efivars, Mount, MountError, Mounts, BIND};

fn part(device: &str, fs: Option<FileSystemType>, target: Option<&str>) -> PartitionInfo {
    PartitionInfo {
        number: 1,
        start_sector: 2048,
        end_sector: 4096,
        part_type: PartitionType::Primary,
        filesystem: fs,
        flags: Vec::new(),
        name: None,
        device_path: device.as_bytes().to_vec(),
        mount_point: None,
        target: target.map(|t| t.as_bytes().to_vec()),
        format: false,
    }
}

fn disk(device: &str, partitions: Vec<PartitionInfo>) -> Disk {
    Disk { device_path: device.as_bytes().to_vec(), file_system: None, partitions }
}

fn dests(mounts: &[Mount]) -> Vec<String> {
    mounts.iter().map(|m| String::from_utf8(m.dest.clone()).unwrap()).collect()
}

#[test]
fn ancestors_are_mounted_first() {
    let disks = Disks {
        physical: vec![disk(
            "/dev/sda",
            vec![
                part("/dev/sda3", Some(FileSystemType::Ext4), Some("/home")),
                part("/dev/sda1", Some(FileSystemType::Fat32), Some("/boot/efi")),
                part("/dev/sda2", Some(FileSystemType::Ext4), Some("/")),
            ],
        )],
        logical: Vec::new(),
    };
    let plan = Installer::mount(&disks, b"/tmp/x").unwrap();
    assert_eq!(dests(&plan), vec!["/tmp/x/", "/tmp/x/boot/efi", "/tmp/x/home"]);
    assert_eq!(plan[0].source, b"/dev/sda2".to_vec());
    assert_eq!(plan[0].fstype, "ext4");
    assert_eq!(plan[1].source, b"/dev/sda1".to_vec());
    assert_eq!(plan[1].fstype, "vfat");
    assert_eq!(plan[2].source, b"/dev/sda3".to_vec());
    assert_eq!(plan[0].flags, 0);
}

#[test]
fn chroot_with_trailing_separator_gets_no_second_one() {
    let disks = Disks {
        physical: vec![disk("/dev/sda", vec![part("/dev/sda1", Some(FileSystemType::Xfs), Some("/var"))])],
        logical: Vec::new(),
    };
    let plan = Installer::mount(&disks, b"/tmp/x/").unwrap();
    assert_eq!(dests(&plan), vec!["/tmp/x/var"]);
    assert_eq!(plan[0].fstype, "xfs");
}

#[test]
fn relative_target_is_placed_under_the_chroot() {
    let disks = Disks {
        physical: vec![disk("/dev/sda", vec![part("/dev/sda1", Some(FileSystemType::Btrfs), Some("srv"))])],
        logical: Vec::new(),
    };
    let plan = Installer::mount(&disks, b"/mnt").unwrap();
    assert_eq!(dests(&plan), vec!["/mnt/srv"]);
}

#[test]
fn partitions_without_target_or_file_system_are_left_out() {
    let disks = Disks {
        physical: vec![disk(
            "/dev/sda",
            vec![
                part("/dev/sda1", None, Some("/data")),
                part("/dev/sda2", Some(FileSystemType::Ext4), None),
                part("/dev/sda3", Some(FileSystemType::Ext4), Some("/")),
            ],
        )],
        logical: Vec::new(),
    };
    let plan = Installer::mount(&disks, b"/tmp/x").unwrap();
    assert_eq!(dests(&plan), vec!["/tmp/x/"]);
}

#[test]
fn whole_device_file_systems_and_logical_devices_are_mounted_too() {
    let mut whole = disk("/dev/sdb", Vec::new());
    whole.file_system = Some(part("/dev/sdb", Some(FileSystemType::Ext4), Some("/srv")));
    let disks = Disks {
        physical: vec![whole],
        logical: vec![disk(
            "/dev/mapper/data",
            vec![
                part("/dev/mapper/data-root", Some(FileSystemType::Ext4), Some("/")),
                part("/dev/mapper/data-home", Some(FileSystemType::Ext4), Some("/home")),
            ],
        )],
    };
    let plan = Installer::mount(&disks, b"/tmp/x").unwrap();
    assert_eq!(dests(&plan), vec!["/tmp/x/", "/tmp/x/home", "/tmp/x/srv"]);
    assert_eq!(plan[2].source, b"/dev/sdb".to_vec());
}

#[test]
fn all_three_fat_kinds_mount_as_vfat() {
    for (fs, target) in [
        (FileSystemType::Fat12, "/a"),
        (FileSystemType::Fat16, "/b"),
        (FileSystemType::Fat32, "/c"),
    ] {
        let disks = Disks {
            physical: vec![disk("/dev/sda", vec![part("/dev/sda1", Some(fs), Some(target))])],
            logical: Vec::new(),
        };
        let plan = Installer::mount(&disks, b"/r").unwrap();
        assert_eq!(plan[0].fstype, "vfat");
    }
    assert_eq!(FileSystemType::Swap.mount_type(), "linux-swap(v1)");
    assert_eq!(FileSystemType::Ntfs.mount_type(), "ntfs");
    assert_eq!(FileSystemType::Fat16.name(), "fat16");
}

#[test]
fn names_are_ordered_part_by_part_not_byte_by_byte() {
    // As bytes "/a-b" comes before "/a/b"; as paths the directory "/a" and
    // what lies below it come before its neighbour "/a-b".
    let disks = Disks {
        physical: vec![disk(
            "/dev/sda",
            vec![
                part("/dev/sda1", Some(FileSystemType::Ext4), Some("/a-b")),
                part("/dev/sda2", Some(FileSystemType::Ext4), Some("/a/b")),
                part("/dev/sda3", Some(FileSystemType::Ext4), Some("/a")),
            ],
        )],
        logical: Vec::new(),
    };
    let plan = Installer::mount(&disks, b"/t").unwrap();
    assert_eq!(dests(&plan), vec!["/t/a", "/t/a/b", "/t/a-b"]);
}

#[test]
fn duplicate_destinations_are_refused() {
    let disks = Disks {
        physical: vec![disk(
            "/dev/sda",
            vec![
                part("/dev/sda1", Some(FileSystemType::Ext4), Some("/home")),
                part("/dev/sda2", Some(FileSystemType::Ext4), Some("/")),
                part("/dev/sda3", Some(FileSystemType::Ext4), Some("/home/")),
            ],
        )],
        logical: Vec::new(),
    };
    match Installer::mount(&disks, b"/tmp/x") {
        Err(MountError::DuplicateDestination { dest }) => {
            assert_eq!(dest, b"/tmp/x/home/".to_vec());
        }
        other => panic!("a duplicate was accepted: {:?}", other),
    }
}

#[test]
fn an_empty_layout_mounts_nothing() {
    let disks = Disks { physical: Vec::new(), logical: Vec::new() };
    assert!(Installer::mount(&disks, b"/tmp/x").unwrap().is_empty());
}

#[test]
fn mounts_are_released_in_reverse() {
    let disks = Disks {
        physical: vec![disk(
            "/dev/sda",
            vec![
                part("/dev/sda1", Some(FileSystemType::Fat32), Some("/boot/efi")),
                part("/dev/sda2", Some(FileSystemType::Ext4), Some("/")),
                part("/dev/sda3", Some(FileSystemType::Ext4), Some("/home")),
            ],
        )],
        logical: Vec::new(),
    };
    let mut live = Mounts::new();
    for mount in Installer::mount(&disks, b"/tmp/x").unwrap() {
        live.push(mount);
    }
    assert_eq!(live.len(), 3);
    let order = live.unmount();
    assert_eq!(dests(&order), vec!["/tmp/x/home", "/tmp/x/boot/efi", "/tmp/x/"]);
    assert_eq!(live.len(), 0);
    assert!(live.unmount().is_empty());
}

#[test]
fn bind_mounts_are_made_only_where_the_source_exists() {
    assert!(mount_bind_if_exists(b"/cdrom", b"/t/cdrom", false).is_none());
    let m = mount_bind_if_exists(b"/cdrom", b"/t/cdrom", true).unwrap();
    assert_eq!(m.source, b"/cdrom".to_vec());
    assert_eq!(m.dest, b"/t/cdrom".to_vec());
    assert_eq!(m.fstype, "none");
    assert_eq!(m.flags, BIND);
    assert_eq!(BIND, 4096);

    let cd = mount_cdrom(b"/tmp/x", true).unwrap();
    assert_eq!(cd.source, b"/cdrom".to_vec());
    assert_eq!(cd.dest, b"/tmp/x/cdrom".to_vec());
    assert!(mount_cdrom(b"/tmp/x", false).is_none());

    let efi = mount_efivars(b"/tmp/x/", true).unwrap();
    assert_eq!(efi.source, b"/sys/firmware/efi/efivars".to_vec());
    assert_eq!(efi.dest, b"/tmp/x/sys/firmware/efi/efivars".to_vec());
    assert_eq!(efi.flags, BIND);
    assert!(mount_efivars(b"/tmp/x/", false).is_none());
}
