use distinst::disk::{Bootloader, Disk, Disks, FileSystemType, PartitionFlag, PartitionInfo, PartitionType};
use distinst::partition::{
    distinst_bootloader_detect, distinst_partition_builder_destroy, distinst_partition_builder_flag,
    distinst_partition_builder_mount, distinst_partition_builder_name, distinst_partition_builder_new,
    distinst_partition_builder_partition_type, distinst_partition_format_with,
    distinst_partition_get_device_path, distinst_partition_get_end_sector,
    distinst_partition_get_start_sector, distinst_partition_set_flags, distinst_partition_set_mount,
    DistinstPartition, DistinstPartitionBuilder, PartitionBuilder, DISTINST_FILE_SYSTEM_TYPE,
    DISTINST_PARTITION_FLAG, DISTINST_PARTITION_TABLE, DISTINST_PARTITION_TYPE,
};
use distinst::partitioning::PvEntry;
use distinst::path::{compare_bytes, compare_paths, join, parts, Order, PathPart};
use distinst::system::{
    checked_minimum_disk_size, deactivate_logical_devices, device_map_exists, minimum_disk_size,
    parse_number, TeardownAction,
};
use distinst::text::{bytes_eq, copy_bytes, ends_with, push_bytes, split_bytes, to_bytes};

fn b(text: &str) -> Vec<u8> {
    text.as_bytes().to_vec()
}

fn texts(items: &[Vec<u8>]) -> Vec<String> {
    items.iter().map(|i| String::from_utf8(i.clone()).unwrap()).collect()
}

fn shape(path: &str) -> Vec<String> {
    parts(path.as_bytes())
        .iter()
        .map(|p| match p {
            PathPart::Root => "/".to_string(),
            PathPart::Current => ".".to_string(),
            PathPart::Parent => "..".to_string(),
            PathPart::Normal(name) => String::from_utf8(name.clone()).unwrap(),
        })
        .collect()
}

#[test]
fn paths_part_at_separators() {
    assert_eq!(shape("/tmp/x/boot/efi"), vec!["/", "tmp", "x", "boot", "efi"]);
    assert_eq!(shape("/"), vec!["/"]);
    assert_eq!(shape(""), Vec::<String>::new());
    assert_eq!(shape("a//b/"), vec!["a", "b"]);
    assert_eq!(shape("./a/./b"), vec![".", "a", "b"]);
    assert_eq!(shape("."), vec!["."]);
    assert_eq!(shape("/./a"), vec!["/", "a"]);
    assert_eq!(shape("../a/.."), vec!["..", "a", ".."]);
    assert_eq!(shape("..."), vec!["..."]);
    assert_eq!(shape(".a"), vec![".a"]);
}

#[test]
fn paths_are_the_same_where_their_parts_are() {
    assert_eq!(compare_paths(b"/home", b"/home/"), Order::Same);
    assert_eq!(compare_paths(b"/a//b", b"/a/./b"), Order::Same);
    assert_eq!(compare_paths(b"a", b"./a"), Order::After);
    assert_eq!(compare_paths(b"/a", b"a"), Order::Before);
    assert_eq!(compare_paths(b"", b""), Order::Same);
}

#[test]
fn a_directory_comes_before_what_lies_below_it() {
    assert_eq!(compare_paths(b"/tmp/x/", b"/tmp/x/boot/efi"), Order::Before);
    assert_eq!(compare_paths(b"/tmp/x/boot/efi", b"/tmp/x/home"), Order::Before);
    assert_eq!(compare_paths(b"/tmp/x/home", b"/tmp/x"), Order::After);
    assert_eq!(compare_paths(b"/a/b", b"/a-b"), Order::Before);
    assert_eq!(compare_paths(b"/a/..", b"/a/b"), Order::Before);
    assert_eq!(compare_paths(b"", b"/"), Order::Before);
}

#[test]
fn bytes_are_ordered_as_in_a_dictionary() {
    assert_eq!(compare_bytes(b"", b""), Order::Same);
    assert_eq!(compare_bytes(b"", b"a"), Order::Before);
    assert_eq!(compare_bytes(b"ab", b"a"), Order::After);
    assert_eq!(compare_bytes(b"ab", b"ac"), Order::Before);
    assert_eq!(compare_bytes(b"b", b"ab"), Order::After);
    assert_eq!(compare_bytes(b"abc", b"abc"), Order::Same);
    assert_eq!(compare_bytes(&[0xff], &[0x7f]), Order::After);
}

#[test]
fn targets_are_placed_under_a_root_with_one_separator() {
    assert_eq!(join(b"/tmp/x", b"/"), b("/tmp/x/"));
    assert_eq!(join(b"/tmp/x", b"/boot/efi"), b("/tmp/x/boot/efi"));
    assert_eq!(join(b"/tmp/x/", b"/home"), b("/tmp/x/home"));
    assert_eq!(join(b"/tmp/x", b"home"), b("/tmp/x/home"));
    assert_eq!(join(b"/tmp/x", b""), b("/tmp/x/"));
    assert_eq!(join(b"", b"/a"), b("/a"));
    assert_eq!(join(b"/", b"//a"), b("//a"));
}

#[test]
fn byte_strings_can_be_compared_copied_and_parted() {
    assert!(bytes_eq(b"abc", b"abc"));
    assert!(!bytes_eq(b"abc", b"abd"));
    assert!(!bytes_eq(b"abc", b"ab"));
    assert!(bytes_eq(b"", b""));
    assert_eq!(copy_bytes(b"xyz"), b("xyz"));
    assert_eq!(to_bytes("zoë"), "zoë".as_bytes().to_vec());
    let mut out = b("ab");
    push_bytes(&mut out, b"cd");
    push_bytes(&mut out, b"");
    assert_eq!(out, b("abcd"));
    assert!(ends_with(b"abc", b"bc"));
    assert!(ends_with(b"abc", b""));
    assert!(ends_with(b"abc", b"abc"));
    assert!(!ends_with(b"abc", b"ab"));
    assert!(!ends_with(b"bc", b"abc"));
    assert_eq!(texts(&split_bytes(b"a,b,,c", b',')), vec!["a", "b", "", "c"]);
    assert_eq!(texts(&split_bytes(b"", b',')), vec![""]);
    assert_eq!(texts(&split_bytes(b",", b',')), vec!["", ""]);
    assert_eq!(texts(&split_bytes(b"abc", b',')), vec!["abc"]);
}

#[test]
fn numbers_are_read_as_the_standard_does() {
    assert_eq!(parse_number(b"0"), Some(0));
    assert_eq!(parse_number(b"0042"), Some(42));
    assert_eq!(parse_number(b"+7"), Some(7));
    assert_eq!(parse_number(b"18446744073709551615"), Some(u64::MAX));
    assert_eq!(parse_number(b"18446744073709551616"), None);
    assert_eq!(parse_number(b"99999999999999999999999"), None);
    assert_eq!(parse_number(b""), None);
    assert_eq!(parse_number(b"+"), None);
    assert_eq!(parse_number(b"-1"), None);
    assert_eq!(parse_number(b"++1"), None);
    assert_eq!(parse_number(b"12a"), None);
    assert_eq!(parse_number(b" 12"), None);
    assert_eq!(parse_number(b"12\n"), None);
    for text in ["0", "1", "+5", "123456789", "", "x", "1x", "18446744073709551615", "18446744073709551616"] {
        assert_eq!(parse_number(text.as_bytes()), text.parse::<u64>().ok());
    }
}

#[test]
fn the_minimum_disk_size_adds_the_defaults() {
    let fixed: u64 = 1_024_000 + 8_388_608 + 8_388_608;
    assert_eq!(minimum_disk_size(0, None), fixed);
    assert_eq!(minimum_disk_size(1000, None), 1000 + fixed);
    // 5 GiB of image are 10485760 sectors, and one more.
    assert_eq!(minimum_disk_size(1000, Some(b"5368709120\n")), 10_485_761 + fixed);
    assert_eq!(minimum_disk_size(20_000_000, Some(b"5368709120\n")), 20_000_000 + fixed);
    assert_eq!(minimum_disk_size(0, Some(b"511\n")), 1 + fixed);
    assert_eq!(minimum_disk_size(0, Some(b"512\n")), 2 + fixed);
    // The last byte is not read, whatever it is.
    assert_eq!(minimum_disk_size(0, Some(b"10249")), 3 + fixed);
    assert_eq!(minimum_disk_size(7, Some(b"")), 7 + fixed);
    assert_eq!(minimum_disk_size(7, Some(b"\n")), 7 + fixed);
    assert_eq!(minimum_disk_size(7, Some(b"many\n")), 7 + fixed);
    assert_eq!(checked_minimum_disk_size(7, Some(b"5368709120\n")), Some(10_485_761 + fixed));
    assert_eq!(checked_minimum_disk_size(u64::MAX - fixed, None), Some(u64::MAX));
    assert_eq!(checked_minimum_disk_size(u64::MAX - fixed + 1, None), None);
    assert_eq!(checked_minimum_disk_size(u64::MAX, Some(b"1\n")), None);
}

#[test]
fn device_maps_are_looked_up_by_name() {
    let maps = vec![b("cryptdata"), b("data-root")];
    assert!(device_map_exists(b"cryptdata", Some(&maps)));
    assert!(!device_map_exists(b"crypt", Some(&maps)));
    assert!(!device_map_exists(b"cryptdata", None));
}

#[test]
fn encrypted_devices_are_closed_after_their_volume_group() {
    let pvs = vec![
        PvEntry { device: b("/dev/sda2"), group: Some(b("plain")) },
        PvEntry { device: b("/dev/mapper/cryptdata"), group: Some(b("vault")) },
        PvEntry { device: b("/dev/mapper/cryptswap"), group: None },
    ];
    let encrypted = vec![b("cryptswap"), b("unknown"), b("cryptdata")];
    let plan: Vec<String> = deactivate_logical_devices(&encrypted, &pvs)
        .iter()
        .map(|a| match a {
            TeardownAction::Deactivate(g) => format!("deactivate {}", String::from_utf8_lossy(g)),
            TeardownAction::Close(n) => format!("close {}", String::from_utf8_lossy(n)),
        })
        .collect();
    assert_eq!(plan, vec!["close cryptswap", "deactivate vault", "close cryptdata"]);
    assert!(deactivate_logical_devices(&Vec::new(), &pvs).is_empty());
    assert!(deactivate_logical_devices(&encrypted, &Vec::new()).is_empty());
}

fn sample() -> PartitionInfo {
    PartitionInfo {
        number: 3,
        start_sector: 2048,
        end_sector: 1_050_623,
        part_type: PartitionType::Primary,
        filesystem: Some(FileSystemType::Ext4),
        flags: vec![PartitionFlag::PED_PARTITION_BOOT],
        name: Some(b("data")),
        device_path: b("/dev/sda3"),
        mount_point: None,
        target: None,
        format: false,
    }
}

#[test]
fn partitions_are_looked_up_by_target_in_the_order_of_the_layout() {
    let mut first = sample();
    first.target = Some(b("/data/"));
    let mut second = sample();
    second.device_path = b("/dev/sdb1");
    second.target = Some(b("/data"));
    second.mount_point = Some(b("/mnt"));
    let disks = Disks {
        physical: vec![Disk { device_path: b("/dev/sda"), file_system: None, partitions: vec![sample(), first] }],
        logical: vec![Disk { device_path: b("/dev/sdb"), file_system: Some(second), partitions: Vec::new() }],
    };
    assert_eq!(disks.entries().len(), 3);
    assert_eq!(disks.get_partition_with_target(b"/data").unwrap().device_path, b("/dev/sda3"));
    assert!(disks.get_partition_with_target(b"/").is_none());
    let whole = disks.logical[0].file_system.as_ref().unwrap();
    assert!(whole.has_target(b"/data//"));
    assert!(whole.mounted_at(b"/mnt/"));
    assert!(!whole.mounted_at(b"/"));
    assert!(!whole.will_format());
    assert_eq!(whole.get_device_path(), &b("/dev/sdb1"));
}

#[test]
fn the_boundary_numbers_are_fixed() {
    assert_eq!(DISTINST_PARTITION_TABLE::NONE.code(), 0);
    assert_eq!(DISTINST_PARTITION_TABLE::GPT.code(), 1);
    assert_eq!(DISTINST_PARTITION_TABLE::MSDOS.code(), 2);
    assert_eq!(DISTINST_PARTITION_TYPE::PRIMARY.code(), 1);
    assert_eq!(DISTINST_PARTITION_TYPE::LOGICAL.code(), 2);
    assert_eq!(distinst_bootloader_detect(Bootloader::Bios), DISTINST_PARTITION_TABLE::MSDOS);
    assert_eq!(distinst_bootloader_detect(Bootloader::Efi), DISTINST_PARTITION_TABLE::GPT);
}

#[test]
fn flags_and_types_cross_the_boundary_and_come_back() {
    let pairs = [
        (DISTINST_PARTITION_FLAG::BOOT, PartitionFlag::PED_PARTITION_BOOT),
        (DISTINST_PARTITION_FLAG::ROOT, PartitionFlag::PED_PARTITION_ROOT),
        (DISTINST_PARTITION_FLAG::SWAP, PartitionFlag::PED_PARTITION_SWAP),
        (DISTINST_PARTITION_FLAG::HIDDEN, PartitionFlag::PED_PARTITION_HIDDEN),
        (DISTINST_PARTITION_FLAG::RAID, PartitionFlag::PED_PARTITION_RAID),
        (DISTINST_PARTITION_FLAG::LVM, PartitionFlag::PED_PARTITION_LVM),
        (DISTINST_PARTITION_FLAG::LBA, PartitionFlag::PED_PARTITION_LBA),
        (DISTINST_PARTITION_FLAG::HPSERVICE, PartitionFlag::PED_PARTITION_HPSERVICE),
        (DISTINST_PARTITION_FLAG::PALO, PartitionFlag::PED_PARTITION_PALO),
        (DISTINST_PARTITION_FLAG::PREP, PartitionFlag::PED_PARTITION_PREP),
        (DISTINST_PARTITION_FLAG::MSFT_RESERVED, PartitionFlag::PED_PARTITION_MSFT_RESERVED),
        (DISTINST_PARTITION_FLAG::BIOS_GRUB, PartitionFlag::PED_PARTITION_BIOS_GRUB),
        (DISTINST_PARTITION_FLAG::APPLE_TV_RECOVERY, PartitionFlag::PED_PARTITION_APPLE_TV_RECOVERY),
        (DISTINST_PARTITION_FLAG::DIAG, PartitionFlag::PED_PARTITION_DIAG),
        (DISTINST_PARTITION_FLAG::LEGACY_BOOT, PartitionFlag::PED_PARTITION_LEGACY_BOOT),
        (DISTINST_PARTITION_FLAG::MSFT_DATA, PartitionFlag::PED_PARTITION_MSFT_DATA),
        (DISTINST_PARTITION_FLAG::IRST, PartitionFlag::PED_PARTITION_IRST),
        (DISTINST_PARTITION_FLAG::ESP, PartitionFlag::PED_PARTITION_ESP),
    ];
    for (outer, inner) in pairs {
        assert_eq!(PartitionFlag::from(outer), inner);
        assert_eq!(DISTINST_PARTITION_FLAG::from(inner), outer);
    }
    assert_eq!(PartitionType::from(DISTINST_PARTITION_TYPE::PRIMARY), PartitionType::Primary);
    assert_eq!(PartitionType::from(DISTINST_PARTITION_TYPE::LOGICAL), PartitionType::Logical);
    assert_eq!(DISTINST_PARTITION_TYPE::from(PartitionType::Primary), DISTINST_PARTITION_TYPE::PRIMARY);
    assert_eq!(DISTINST_PARTITION_TYPE::from(PartitionType::Logical), DISTINST_PARTITION_TYPE::LOGICAL);
    assert_eq!(DISTINST_FILE_SYSTEM_TYPE::NONE.file_system(), None);
    assert_eq!(DISTINST_FILE_SYSTEM_TYPE::SWAP.file_system(), Some(FileSystemType::Swap));
    assert_eq!(DISTINST_FILE_SYSTEM_TYPE::FAT12.file_system(), Some(FileSystemType::Fat12));
    assert_eq!(DISTINST_FILE_SYSTEM_TYPE::LUKS.file_system(), Some(FileSystemType::Luks));
}

#[test]
fn a_builder_is_handed_on_from_call_to_call() {
    assert!(distinst_partition_builder_new(0, 100, DISTINST_FILE_SYSTEM_TYPE::NONE).is_none());
    let builder: DistinstPartitionBuilder =
        distinst_partition_builder_new(2048, 4096, DISTINST_FILE_SYSTEM_TYPE::EXT4).unwrap();
    assert_eq!(builder.0.start_sector, 2048);
    assert_eq!(builder.0.end_sector, 4096);
    assert_eq!(builder.0.filesystem, FileSystemType::Ext4);
    assert_eq!(builder.0.part_type, PartitionType::Primary);
    assert!(builder.0.name.is_none() && builder.0.mount.is_none() && builder.0.flags.is_empty());
    let builder = distinst_partition_builder_name(builder, b("root"));
    let builder = distinst_partition_builder_mount(builder, b("/"));
    let builder = distinst_partition_builder_partition_type(builder, DISTINST_PARTITION_TYPE::LOGICAL);
    let builder = distinst_partition_builder_flag(builder, DISTINST_PARTITION_FLAG::ESP);
    let builder = distinst_partition_builder_flag(builder, DISTINST_PARTITION_FLAG::BOOT);
    assert_eq!(builder.0.name, Some(b("root")));
    assert_eq!(builder.0.mount, Some(b("/")));
    assert_eq!(builder.0.part_type, PartitionType::Logical);
    assert_eq!(builder.0.flags, vec![PartitionFlag::PED_PARTITION_ESP, PartitionFlag::PED_PARTITION_BOOT]);
    assert_eq!(builder.0.start_sector, 2048);
    distinst_partition_builder_destroy(builder);

    let direct = PartitionBuilder::new(1, 2, FileSystemType::Xfs)
        .name(b("n"))
        .mount(b("/m"))
        .partition_type(PartitionType::Logical)
        .flag(PartitionFlag::PED_PARTITION_LVM);
    assert_eq!(direct.name, Some(b("n")));
    assert_eq!(direct.mount, Some(b("/m")));
    assert_eq!(direct.flags, vec![PartitionFlag::PED_PARTITION_LVM]);
}

#[test]
fn a_partition_is_read_and_changed_through_its_handle() {
    let mut handle = DistinstPartition(sample());
    assert_eq!(distinst_partition_get_device_path(&handle), &b("/dev/sda3"));
    assert_eq!(distinst_partition_get_device_path(&handle).len(), 9);
    assert_eq!(distinst_partition_get_start_sector(&handle), 2048);
    assert_eq!(distinst_partition_get_end_sector(&handle), 1_050_623);
    distinst_partition_set_mount(&mut handle, b("/srv"));
    assert_eq!(handle.0.target, Some(b("/srv")));
    distinst_partition_set_flags(&mut handle, &[DISTINST_PARTITION_FLAG::LVM, DISTINST_PARTITION_FLAG::RAID]);
    assert_eq!(handle.0.flags, vec![PartitionFlag::PED_PARTITION_LVM, PartitionFlag::PED_PARTITION_RAID]);
    distinst_partition_set_flags(&mut handle, &[]);
    assert!(handle.0.flags.is_empty());
    assert_eq!(distinst_partition_format_with(&mut handle, DISTINST_FILE_SYSTEM_TYPE::NONE), -1);
    assert!(!handle.0.format);
    assert_eq!(handle.0.name, Some(b("data")));
    assert_eq!(distinst_partition_format_with(&mut handle, DISTINST_FILE_SYSTEM_TYPE::BTRFS), 0);
    assert!(handle.0.format);
    assert_eq!(handle.0.filesystem, Some(FileSystemType::Btrfs));
    assert_eq!(handle.0.name, None);
    assert_eq!(handle.0.target, Some(b("/srv")));
}

#[test]
fn the_firmware_interface_can_be_forced() {
    assert_eq!(Bootloader::detect(0, false), Bootloader::Bios);
    assert_eq!(Bootloader::detect(0, true), Bootloader::Efi);
    assert_eq!(Bootloader::detect(1, true), Bootloader::Bios);
    assert_eq!(Bootloader::detect(1, false), Bootloader::Bios);
    assert_eq!(Bootloader::detect(2, false), Bootloader::Efi);
    assert_eq!(Bootloader::detect(3, false), Bootloader::Bios);
    assert_eq!(Bootloader::detect(usize::MAX, true), Bootloader::Efi);
}
