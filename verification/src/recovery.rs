//! The recovery configuration on the installation medium: which values an
//! installation records there, and in which order the medium is changed.

use crate::envfile::{
    law_lookup_after_put, lemma_position_is_first, lookup, position, put, render, Entries,
    EnvFile,
};
use crate::installer::{Cause, CauseModel, ErrorKind};
use crate::text::{bytes, copy_bytes, ends_with, has_suffix, to_bytes, views};
use vstd::prelude::*;
use vstd::utf8::{is_ascii_chars, is_ascii_chars_encode_utf8};

verus! {

/// The key of the identifier of the encrypted container.
pub open spec fn key_luks() -> Seq<u8> {
    bytes("LUKS_UUID"@)
}

/// The key of the mark for installations by a vendor.
pub open spec fn key_oem() -> Seq<u8> {
    bytes("OEM_MODE"@)
}

/// The key of the identifier of the root file system.
pub open spec fn key_root() -> Seq<u8> {
    bytes("ROOT_UUID"@)
}

/// What is recorded for the encrypted container: its identifier, or
/// nothing where there is no container or its identifier is that of the
/// root.
pub open spec fn luks_value(root: Seq<u8>, luks: Option<Seq<u8>>) -> Seq<u8> {
    match luks {
        Some(id) if id != root => id,
        _ => Seq::empty(),
    }
}

/// The entries once the container and the mark are recorded, before the
/// root is.
pub open spec fn staged(e: Entries, root: Seq<u8>, luks: Option<Seq<u8>>) -> Entries {
    put(put(e, key_luks(), luks_value(root, luks)), key_oem(), bytes("0"@))
}

/// The entries once an installation is recorded: the container, the mark
/// set to `0`, and the root.
pub open spec fn recovered(e: Entries, root: Seq<u8>, luks: Option<Seq<u8>>) -> Entries {
    put(staged(e, root, luks), key_root(), root)
}

/// The failure that reports that the configuration names no root.
pub open spec fn no_root_uuid() -> CauseModel {
    CauseModel {
        kind: ErrorKind::InvalidData,
        message: "no ROOT_UUID found in /cdrom/recovery.conf"@,
    }
}

/// The three keys are three different keys.
pub proof fn lemma_keys_differ()
    ensures
        key_luks() != key_oem(),
        key_luks() != key_root(),
        key_oem() != key_root(),
{
    reveal_strlit("LUKS_UUID");
    reveal_strlit("OEM_MODE");
    reveal_strlit("ROOT_UUID");
    assert(is_ascii_chars("LUKS_UUID"@));
    assert(is_ascii_chars("OEM_MODE"@));
    assert(is_ascii_chars("ROOT_UUID"@));
    is_ascii_chars_encode_utf8("LUKS_UUID"@);
    is_ascii_chars_encode_utf8("OEM_MODE"@);
    is_ascii_chars_encode_utf8("ROOT_UUID"@);
    assert(key_luks().len() == 9);
    assert(key_oem().len() == 8);
    assert(key_root().len() == 9);
    assert("LUKS_UUID"@[0] == 'L');
    assert("ROOT_UUID"@[0] == 'R');
    assert(key_luks()[0] == 'L' as u8);
    assert(key_root()[0] == 'R' as u8);
}

/// Setting a key to the value it has changes nothing.
pub proof fn lemma_put_same(e: Entries, key: Seq<u8>, value: Seq<u8>)
    requires
        lookup(e, key) == Some(value),
    ensures
        put(e, key, value) == e,
{
    lemma_position_is_first(e, key);
    let p = position(e, key);
    assert(e[p] == (key, value));
    assert(put(e, key, value) =~= e);
}

/// Recording the same installation a second time changes nothing: the
/// entries, and with them the bytes of the file, are as after the first
/// time.
pub proof fn law_recording_twice(e: Entries, root: Seq<u8>, luks: Option<Seq<u8>>)
    ensures
        recovered(recovered(e, root, luks), root, luks) == recovered(e, root, luks),
        render(recovered(recovered(e, root, luks), root, luks)) == render(
            recovered(e, root, luks),
        ),
{
    lemma_keys_differ();
    let lv = luks_value(root, luks);
    let zero = bytes("0"@);
    let a = put(e, key_luks(), lv);
    let b = put(a, key_oem(), zero);
    let x = put(b, key_root(), root);
    law_lookup_after_put(e, key_luks(), lv, key_luks());
    law_lookup_after_put(a, key_oem(), zero, key_luks());
    law_lookup_after_put(b, key_root(), root, key_luks());
    law_lookup_after_put(b, key_root(), root, key_oem());
    assert(lookup(x, key_luks()) == Some(lv));
    assert(lookup(x, key_oem()) == Some(zero));
    assert(lookup(x, key_root()) == Some(root));
    lemma_put_same(x, key_luks(), lv);
    lemma_put_same(x, key_oem(), zero);
    lemma_put_same(x, key_root(), root);
}

/// One change of the installation medium, as the mathematical model has it.
pub enum RecoveryModel {
    RemountRw(Seq<u8>),
    RemoveBoot(Seq<u8>),
    Write(Seq<u8>),
}

/// One change of the installation medium.
#[derive(Debug)]
pub enum RecoveryAction {
    /// Mount the medium at this place again, for writing.
    RemountRw(Vec<u8>),
    /// Remove the boot files that were made for the root with this
    /// identifier.
    RemoveBoot(Vec<u8>),
    /// Write these bytes as the recovery configuration.
    Write(Vec<u8>),
}

impl View for RecoveryAction {
    type V = RecoveryModel;

    open spec fn view(&self) -> RecoveryModel {
        match self {
            RecoveryAction::RemountRw(p) => RecoveryModel::RemountRw(p@),
            RecoveryAction::RemoveBoot(id) => RecoveryModel::RemoveBoot(id@),
            RecoveryAction::Write(data) => RecoveryModel::Write(data@),
        }
    }
}

/// The models of the actions of `v`, in order.
pub open spec fn recovery_models(v: Seq<RecoveryAction>) -> Seq<RecoveryModel> {
    Seq::new(v.len(), |i: int| v[i]@)
}

/// What the update of the recovery configuration comes to. Where the
/// configuration names a root, the changes of the medium in their order:
/// mount it for writing, remove the boot files of the root that was
/// recorded before, write the configuration with the new root. Where it
/// names none, the failure.
pub open spec fn recovery_of(e: Entries, root: Seq<u8>, luks: Option<Seq<u8>>) -> Result<
    Seq<RecoveryModel>,
    CauseModel,
> {
    match lookup(staged(e, root, luks), key_root()) {
        Some(stale) => Ok(
            seq![
                RecoveryModel::RemountRw(bytes("/cdrom"@)),
                RecoveryModel::RemoveBoot(stale),
                RecoveryModel::Write(render(recovered(e, root, luks))),
            ],
        ),
        None => Err(no_root_uuid()),
    }
}

/// What a plan or a failure holds.
pub open spec fn plan_outcome(r: Result<Vec<RecoveryAction>, Cause>) -> Result<
    Seq<RecoveryModel>,
    CauseModel,
> {
    match r {
        Ok(p) => Ok(recovery_models(p@)),
        Err(c) => Err(c@),
    }
}

/// Records the installation in the recovery configuration and says how the
/// medium is to be changed. The boot files of the root that was recorded
/// before are removed before the configuration with the new root is
/// written, so that at no time two sets of boot files go with one record.
pub fn update_recovery_config(conf: &mut EnvFile, root_uuid: &[u8], luks_uuid: &Option<Vec<u8>>) -> (plan:
    Result<Vec<RecoveryAction>, Cause>)
    ensures
        plan_outcome(plan) == recovery_of(
            old(conf)@,
            root_uuid@,
            crate::disk::opt_bytes(*luks_uuid),
        ),
        final(conf)@ == match plan {
            Ok(_) => recovered(old(conf)@, root_uuid@, crate::disk::opt_bytes(*luks_uuid)),
            Err(_) => staged(old(conf)@, root_uuid@, crate::disk::opt_bytes(*luks_uuid)),
        },
{
    let empty: Vec<u8> = Vec::new();
    let luks: &Vec<u8> = match luks_uuid {
        Some(id) => {
            if crate::text::bytes_eq(id.as_slice(), root_uuid) {
                &empty
            } else {
                id
            }
        },
        None => &empty,
    };
    assert(luks@ == luks_value(root_uuid@, crate::disk::opt_bytes(*luks_uuid)));
    let key_l = to_bytes("LUKS_UUID");
    let key_o = to_bytes("OEM_MODE");
    let key_r = to_bytes("ROOT_UUID");
    let zero = to_bytes("0");
    conf.update(key_l.as_slice(), luks.as_slice());
    conf.update(key_o.as_slice(), zero.as_slice());
    let stale = match conf.get(key_r.as_slice()) {
        Some(old_uuid) => copy_bytes(old_uuid.as_slice()),
        None => {
            return Err(
                Cause::new(ErrorKind::InvalidData, "no ROOT_UUID found in /cdrom/recovery.conf"),
            );
        },
    };
    conf.update(key_r.as_slice(), root_uuid);
    let mut plan: Vec<RecoveryAction> = Vec::new();
    plan.push(RecoveryAction::RemountRw(to_bytes("/cdrom")));
    plan.push(RecoveryAction::RemoveBoot(stale));
    plan.push(RecoveryAction::Write(conf.write()));
    assert(recovery_models(plan@) =~= seq![
        RecoveryModel::RemountRw(bytes("/cdrom"@)),
        RecoveryModel::RemoveBoot(stale@),
        RecoveryModel::Write(render(conf@)),
    ]);
    Ok(plan)
}

/// The names that end with the identifier, in their order.
pub open spec fn ending_with(names: Seq<Seq<u8>>, uuid: Seq<u8>) -> Seq<Seq<u8>>
    decreases names.len(),
{
    if names.len() == 0 {
        Seq::empty()
    } else if has_suffix(names.last(), uuid) {
        ending_with(names.drop_last(), uuid).push(names.last())
    } else {
        ending_with(names.drop_last(), uuid)
    }
}

/// The boot directories that were made for the root with the identifier:
/// those of the names that end with it.
pub fn stale_boot_entries(names: &Vec<Vec<u8>>, uuid: &[u8]) -> (stale: Vec<Vec<u8>>)
    ensures
        views(stale@) == ending_with(views(names@), uuid@),
{
    let ghost all = views(names@);
    let mut stale: Vec<Vec<u8>> = Vec::new();
    let mut i: usize = 0;
    assert(views(stale@) =~= ending_with(all.take(0), uuid@));
    while i < names.len()
        invariant
            0 <= i <= names.len(),
            all == views(names@),
            views(stale@) == ending_with(all.take(i as int), uuid@),
        decreases names.len() - i,
    {
        proof {
            assert(all.take(i + 1).drop_last() =~= all.take(i as int));
            assert(all.take(i + 1).last() == names@[i as int]@);
        }
        if ends_with(names[i].as_slice(), uuid) {
            let ghost before = views(stale@);
            stale.push(copy_bytes(names[i].as_slice()));
            assert(views(stale@) =~= before.push(names@[i as int]@));
        }
        i += 1;
    }
    assert(all.take(names.len() as int) =~= all);
    stale
}

} // verus!
