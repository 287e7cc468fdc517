use distinst::envfile::EnvFile;
use distinst::installer::ErrorKind;
use distinst::recovery::{stale_boot_entries, update_recovery_config, RecoveryAction};

fn value(file: &EnvFile, key: &str) -> Option<String> {
    file.get(key.as_bytes()).map(|v| String::from_utf8(v.clone()).unwrap())
}

fn keys(file: &EnvFile) -> Vec<String> {
    file.store.iter().map(|e| String::from_utf8(e.key.clone()).unwrap()).collect()
}

#[test]
fn envfile_round_trip() {
    let mut file = EnvFile::new(b"");
    file.update(b"A", b"1");
    file.update(b"B", b"2");
    assert_eq!(file.write(), b"A=1\nB=2\n".to_vec());
    file.update(b"A", b"3");
    let persisted = file.write();
    assert_eq!(persisted, b"A=3\nB=2\n".to_vec());
    let reread = EnvFile::new(&persisted);
    assert_eq!(value(&reread, "A"), Some("3".to_string()));
    assert_eq!(value(&reread, "B"), Some("2".to_string()));
    assert_eq!(keys(&reread), vec!["A", "B"]);
    assert_eq!(reread.write(), persisted);
}

#[test]
fn keys_keep_their_place_when_their_value_changes() {
    let mut file = EnvFile::new(b"ZETA=z\nALPHA=a\nMID=m\n");
    assert_eq!(keys(&file), vec!["ZETA", "ALPHA", "MID"]);
    file.update(b"ALPHA", b"changed");
    file.update(b"NEW", b"n");
    assert_eq!(keys(&file), vec!["ZETA", "ALPHA", "MID", "NEW"]);
    assert_eq!(file.write(), b"ZETA=z\nALPHA=changed\nMID=m\nNEW=n\n".to_vec());
}

#[test]
fn lines_without_equals_are_passed_over() {
    let file = EnvFile::new(b"# a comment\nA=1\n\nnonsense\nB=2");
    assert_eq!(keys(&file), vec!["A", "B"]);
    assert_eq!(value(&file, "B"), Some("2".to_string()));
    assert_eq!(value(&file, "nonsense"), None);
}

#[test]
fn the_value_starts_behind_the_first_equals() {
    let file = EnvFile::new(b"OPTS=a=b=c\nEMPTY=\n=odd\n");
    assert_eq!(value(&file, "OPTS"), Some("a=b=c".to_string()));
    assert_eq!(value(&file, "EMPTY"), Some("".to_string()));
    assert_eq!(value(&file, ""), Some("odd".to_string()));
}

#[test]
fn a_later_line_for_a_key_gives_its_value() {
    let file = EnvFile::new(b"A=1\nB=2\nA=9\n");
    assert_eq!(keys(&file), vec!["A", "B"]);
    assert_eq!(value(&file, "A"), Some("9".to_string()));
    assert_eq!(file.write(), b"A=9\nB=2\n".to_vec());
}

#[test]
fn an_empty_file_holds_nothing() {
    let file = EnvFile::new(b"");
    assert!(file.store.is_empty());
    assert_eq!(file.get(b"A"), None);
    assert_eq!(file.write(), Vec::<u8>::new());
}

fn plan_text(plan: &[RecoveryAction]) -> Vec<String> {
    plan.iter()
        .map(|a| match a {
            RecoveryAction::RemountRw(p) => format!("remount {}", String::from_utf8_lossy(p)),
            RecoveryAction::RemoveBoot(id) => format!("remove {}", String::from_utf8_lossy(id)),
            RecoveryAction::Write(data) => format!("write {}", String::from_utf8_lossy(data)),
        })
        .collect()
}

#[test]
fn the_recovery_configuration_is_updated_in_order() {
    let mut conf = EnvFile::new(b"HOSTNAME=pop\nLUKS_UUID=\nOEM_MODE=1\nROOT_UUID=old-root\n");
    let plan = update_recovery_config(&mut conf, b"new-root", &Some(b"container".to_vec())).unwrap();
    assert_eq!(
        plan_text(&plan),
        vec![
            "remount /cdrom".to_string(),
            "remove old-root".to_string(),
            "write HOSTNAME=pop\nLUKS_UUID=container\nOEM_MODE=0\nROOT_UUID=new-root\n".to_string(),
        ]
    );
    assert_eq!(value(&conf, "ROOT_UUID"), Some("new-root".to_string()));
    assert_eq!(value(&conf, "OEM_MODE"), Some("0".to_string()));
}

#[test]
fn a_container_with_the_identifier_of_the_root_is_no_container() {
    let mut conf = EnvFile::new(b"ROOT_UUID=r0\nLUKS_UUID=stale\n");
    let plan = update_recovery_config(&mut conf, b"r1", &Some(b"r1".to_vec())).unwrap();
    assert_eq!(value(&conf, "LUKS_UUID"), Some("".to_string()));
    assert_eq!(
        plan_text(&plan)[2],
        "write ROOT_UUID=r1\nLUKS_UUID=\nOEM_MODE=0\n".to_string()
    );
}

#[test]
fn a_configuration_without_root_is_refused() {
    let mut conf = EnvFile::new(b"OEM_MODE=1\n");
    match update_recovery_config(&mut conf, b"new-root", &None) {
        Err(cause) => {
            assert_eq!(cause.kind, ErrorKind::InvalidData);
            assert_eq!(cause.message, "no ROOT_UUID found in /cdrom/recovery.conf");
        }
        Ok(plan) => panic!("a plan was made: {:?}", plan),
    }
    assert_eq!(value(&conf, "ROOT_UUID"), None);
    assert_eq!(value(&conf, "OEM_MODE"), Some("0".to_string()));
    assert_eq!(value(&conf, "LUKS_UUID"), Some("".to_string()));
}

#[test]
fn recording_the_same_installation_twice_gives_the_same_file() {
    let mut conf = EnvFile::new(b"KEEP=me\nROOT_UUID=abc\nOEM_MODE=1\n");
    let first = update_recovery_config(&mut conf, b"abc", &None).unwrap();
    let once = conf.write();
    let second = update_recovery_config(&mut conf, b"abc", &None).unwrap();
    let twice = conf.write();
    assert_eq!(once, twice);
    assert_eq!(once, b"KEEP=me\nROOT_UUID=abc\nOEM_MODE=0\nLUKS_UUID=\n".to_vec());
    assert_eq!(plan_text(&first)[2], plan_text(&second)[2]);
    assert_eq!(plan_text(&second)[1], "remove abc");
}

#[test]
fn boot_directories_of_the_old_root_are_found_by_their_ending() {
    let names = vec![
        b"Pop_OS-1111".to_vec(),
        b"Recovery-2222".to_vec(),
        b"BOOT".to_vec(),
        b"Other-1111".to_vec(),
        b"11".to_vec(),
    ];
    let stale = stale_boot_entries(&names, b"1111");
    assert_eq!(stale, vec![b"Pop_OS-1111".to_vec(), b"Other-1111".to_vec()]);
    assert!(stale_boot_entries(&names, b"3333").is_empty());
    assert_eq!(stale_boot_entries(&names, b"").len(), 5);
}
