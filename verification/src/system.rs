//! Smaller questions about the system that runs the installer: how large a
//! disk has to be, which device maps are there, and how what is left of
//! encrypted devices is shut down.

use crate::command::contains_bytes;
use crate::installer::{DEFAULT_ESP_SECTORS, DEFAULT_RECOVER_SECTORS, DEFAULT_SWAP_SECTORS};
use crate::partitioning::{pv_models, PvEntry, PvModel};
use crate::path::{compare_paths, same_path, Order};
use crate::text::{bytes, copy_bytes, push_bytes, to_bytes, views};
use vstd::prelude::*;

verus! {

/// The byte of the digit zero.
pub const ZERO: u8 = 48;

/// The byte of the digit nine.
pub const NINE: u8 = 57;

/// The byte of the plus sign.
pub const PLUS: u8 = 43;

/// Whether all bytes are digits.
pub open spec fn all_digits(s: Seq<u8>) -> bool {
    forall|i: int| 0 <= i < s.len() ==> ZERO <= #[trigger] s[i] <= NINE
}

/// The number that the digits write, the highest first.
pub open spec fn value_of(s: Seq<u8>) -> nat
    decreases s.len(),
{
    if s.len() == 0 {
        0
    } else {
        (value_of(s.drop_last()) * 10 + (s.last() - ZERO)) as nat
    }
}

/// The text without the plus sign that it may start with.
pub open spec fn unsigned(s: Seq<u8>) -> Seq<u8> {
    if s.len() > 0 && s[0] == PLUS {
        s.skip(1)
    } else {
        s
    }
}

/// The number that a text writes: digits, at least one, behind at most
/// one plus sign, with a value that 64 bits can hold. Any other text
/// writes no number.
pub open spec fn number_of(s: Seq<u8>) -> Option<u64> {
    let d = unsigned(s);
    if d.len() > 0 && all_digits(d) && value_of(d) <= u64::MAX {
        Some(value_of(d) as u64)
    } else {
        None
    }
}

/// The value of digits is at least the value of any of their beginnings.
pub proof fn lemma_value_grows(s: Seq<u8>, k: int)
    requires
        all_digits(s),
        0 <= k <= s.len(),
    ensures
        value_of(s.take(k)) <= value_of(s),
    decreases s.len() - k,
{
    if k == s.len() {
        assert(s.take(k) =~= s);
    } else {
        lemma_value_grows(s, k + 1);
        assert(s.take(k + 1).drop_last() =~= s.take(k));
        assert(s.take(k + 1).last() == s[k]);
    }
}

/// The number that the text writes, if it writes one.
pub fn parse_number(s: &[u8]) -> (n: Option<u64>)
    ensures
        n == number_of(s@),
{
    let start: usize = if s.len() > 0 && s[0] == PLUS {
        1
    } else {
        0
    };
    let ghost d = unsigned(s@);
    assert(d =~= s@.skip(start as int));
    if start == s.len() {
        return None;
    }
    let mut acc: u64 = 0;
    let mut i: usize = start;
    assert(d.take(0) =~= Seq::<u8>::empty());
    while i < s.len()
        invariant
            start <= i <= s.len(),
            start < s.len(),
            d == s@.skip(start as int),
            d == unsigned(s@),
            all_digits(d.take(i - start)),
            acc == value_of(d.take(i - start)),
        decreases s.len() - i,
    {
        let b = s[i];
        let ghost k = i - start;
        assert(d[k] == b);
        if b < ZERO || b > NINE {
            return None;
        }
        proof {
            assert(d.take(k + 1).drop_last() =~= d.take(k));
            assert(d.take(k + 1).last() == b);
            assert forall|j: int| 0 <= j < k + 1 implies ZERO <= #[trigger] d.take(k + 1)[j]
                <= NINE by {
                if j < k {
                    assert(d.take(k)[j] == d.take(k + 1)[j]);
                }
            }
        }
        let digit: u64 = (b - ZERO) as u64;
        let next = match acc.checked_mul(10) {
            Some(m) => m.checked_add(digit),
            None => None,
        };
        match next {
            Some(v) => {
                acc = v;
            },
            None => {
                proof {
                    assert(value_of(d.take(k + 1)) > u64::MAX);
                    if all_digits(d) {
                        lemma_value_grows(d, k + 1);
                    }
                }
                return None;
            },
        }
        i += 1;
    }
    assert(d.take(s.len() - start) =~= d);
    Some(acc)
}

/// The sectors that the image takes: one more than its bytes fill, 512 to
/// a sector. The last byte of the contents of the size file, the end of
/// its line, is not read; contents that write no number say nothing.
pub open spec fn image_sectors(contents: Option<Seq<u8>>) -> Option<u64> {
    match contents {
        Some(c) if c.len() > 0 => match number_of(c.drop_last()) {
            Some(n) => Some((n / 512 + 1) as u64),
            None => None,
        },
        _ => None,
    }
}

/// The sectors that a disk needs at least: the larger of `default` and
/// what the image takes, and on top the defaults for the boot, the
/// recovery and the swap partition.
pub open spec fn minimum_sectors(default: u64, contents: Option<Seq<u8>>) -> int {
    (match image_sectors(contents) {
        Some(n) if n > default => n as int,
        _ => default as int,
    }) + DEFAULT_ESP_SECTORS + DEFAULT_RECOVER_SECTORS + DEFAULT_SWAP_SECTORS
}

/// What an optional slice holds.
pub open spec fn opt_slice(o: Option<&[u8]>) -> Option<Seq<u8>> {
    match o {
        Some(s) => Some(s@),
        None => None,
    }
}

/// Gets the minimum number of sectors required. `contents` is what the
/// size file of the installation medium holds, where it could be read.
pub fn minimum_disk_size(default: u64, contents: Option<&[u8]>) -> (sectors: u64)
    requires
        minimum_sectors(default, opt_slice(contents)) <= u64::MAX,
    ensures
        sectors == minimum_sectors(default, opt_slice(contents)),
{
    let image: Option<u64> = match contents {
        Some(c) => {
            if c.len() > 0 {
                let body = vstd::slice::slice_subrange(c, 0, c.len() - 1);
                assert(body@ =~= c@.drop_last());
                match parse_number(body) {
                    Some(n) => Some(n / 512 + 1),
                    None => None,
                }
            } else {
                None
            }
        },
        None => None,
    };
    let size: u64 = match image {
        Some(n) => if n > default {
            n
        } else {
            default
        },
        None => default,
    };
    size + DEFAULT_ESP_SECTORS + DEFAULT_RECOVER_SECTORS + DEFAULT_SWAP_SECTORS
}

/// Gets the minimum number of sectors required where 64 bits can hold it,
/// and nothing where they cannot.
pub fn checked_minimum_disk_size(default: u64, contents: Option<&[u8]>) -> (sectors: Option<u64>)
    ensures
        match sectors {
            Some(n) => n == minimum_sectors(default, opt_slice(contents)),
            None => minimum_sectors(default, opt_slice(contents)) > u64::MAX,
        },
{
    let fixed: u64 = DEFAULT_ESP_SECTORS + DEFAULT_RECOVER_SECTORS + DEFAULT_SWAP_SECTORS;
    if default <= u64::MAX - fixed {
        proof {
            let c = opt_slice(contents);
            if image_sectors(c) is Some {
                assert(image_sectors(c)->0 <= u64::MAX / 512 + 1);
            }
        }
        Some(minimum_disk_size(default, contents))
    } else {
        None
    }
}

/// Checks if the given name already exists as a device in the device map
/// list. Where the list could not be had, no name exists.
pub fn device_map_exists(name: &[u8], list: Option<&Vec<Vec<u8>>>) -> (exists: bool)
    ensures
        exists == match list {
            Some(l) => views(l@).contains(name@),
            None => false,
        },
{
    match list {
        Some(l) => contains_bytes(l, name),
        None => false,
    }
}

/// One piece of shutting down encrypted devices, as the mathematical model
/// has it.
pub enum TeardownModel {
    Deactivate(Seq<u8>),
    Close(Seq<u8>),
}

/// One piece of shutting down encrypted devices.
#[derive(Debug)]
pub enum TeardownAction {
    /// Deactivate the volume group.
    Deactivate(Vec<u8>),
    /// Close the encrypted device with this name.
    Close(Vec<u8>),
}

impl View for TeardownAction {
    type V = TeardownModel;

    open spec fn view(&self) -> TeardownModel {
        match self {
            TeardownAction::Deactivate(g) => TeardownModel::Deactivate(g@),
            TeardownAction::Close(n) => TeardownModel::Close(n@),
        }
    }
}

/// The models of the actions of `v`, in order.
pub open spec fn teardown_models(v: Seq<TeardownAction>) -> Seq<TeardownModel> {
    Seq::new(v.len(), |i: int| v[i]@)
}

/// The place of the first entry for the device, or the number of entries
/// where there is none.
pub open spec fn pv_position(pvs: PvModel, device: Seq<u8>) -> int
    decreases pvs.len(),
{
    if pvs.len() == 0 || same_path(pvs[0].0, device) {
        0
    } else {
        1 + pv_position(pvs.drop_first(), device)
    }
}

/// The device node under which an opened encrypted device is mapped.
pub open spec fn mapped(name: Seq<u8>) -> Seq<u8> {
    bytes("/dev/mapper/"@) + name
}

/// What is done for one encrypted device: nothing where it is no physical
/// volume; else its volume group, where it has one, is deactivated, and
/// the device is closed.
pub open spec fn teardown_of(name: Seq<u8>, pvs: PvModel) -> Seq<TeardownModel> {
    let i = pv_position(pvs, mapped(name));
    if i < pvs.len() {
        match pvs[i].1 {
            Some(g) => seq![TeardownModel::Deactivate(g), TeardownModel::Close(name)],
            None => seq![TeardownModel::Close(name)],
        }
    } else {
        Seq::empty()
    }
}

/// What is done for the encrypted devices, one after the other.
pub open spec fn teardown_all(names: Seq<Seq<u8>>, pvs: PvModel) -> Seq<TeardownModel>
    decreases names.len(),
{
    if names.len() == 0 {
        Seq::empty()
    } else {
        teardown_all(names.drop_last(), pvs) + teardown_of(names.last(), pvs)
    }
}

/// The entry for the device, if the physical volumes hold one.
fn find_pv<'a>(pvs: &'a Vec<PvEntry>, device: &[u8]) -> (found: Option<&'a PvEntry>)
    ensures
        match found {
            Some(e) => {
                let i = pv_position(pv_models(pvs@), device@);
                0 <= i < pvs.len() && *e == pvs@[i]
            },
            None => pv_position(pv_models(pvs@), device@) == pvs.len(),
        },
{
    let ghost all = pv_models(pvs@);
    let mut i: usize = 0;
    assert(all.skip(0) =~= all);
    while i < pvs.len()
        invariant
            0 <= i <= pvs.len(),
            all == pv_models(pvs@),
            pv_position(all, device@) == i + pv_position(all.skip(i as int), device@),
        decreases pvs.len() - i,
    {
        proof {
            assert(all.skip(i as int)[0] == all[i as int]);
            assert(all.skip(i as int).drop_first() =~= all.skip(i + 1));
        }
        if compare_paths(pvs[i].device.as_slice(), device) == Order::Same {
            return Some(&pvs[i]);
        }
        i += 1;
    }
    None
}

/// How the encrypted devices that are open are shut down: for each that is
/// a physical volume, its volume group is deactivated where it has one,
/// and the device is closed. The actions are made in this order; the
/// first that fails ends the shutting down.
pub fn deactivate_logical_devices(encrypted: &Vec<Vec<u8>>, pvs: &Vec<PvEntry>) -> (plan: Vec<
    TeardownAction,
>)
    ensures
        teardown_models(plan@) == teardown_all(views(encrypted@), pv_models(pvs@)),
{
    let ghost names = views(encrypted@);
    let ghost table = pv_models(pvs@);
    let mut plan: Vec<TeardownAction> = Vec::new();
    let mut i: usize = 0;
    assert(teardown_models(plan@) =~= teardown_all(names.take(0), table));
    while i < encrypted.len()
        invariant
            0 <= i <= encrypted.len(),
            names == views(encrypted@),
            table == pv_models(pvs@),
            teardown_models(plan@) == teardown_all(names.take(i as int), table),
        decreases encrypted.len() - i,
    {
        let name = &encrypted[i];
        let ghost before = teardown_models(plan@);
        proof {
            assert(names.take(i + 1).drop_last() =~= names.take(i as int));
            assert(names.take(i + 1).last() == name@);
        }
        let mut device = to_bytes("/dev/mapper/");
        push_bytes(&mut device, name.as_slice());
        if let Some(entry) = find_pv(pvs, device.as_slice()) {
            let ghost p = pv_position(table, mapped(name@));
            assert(table[p] == (entry.device@, crate::disk::opt_bytes(entry.group)));
            if let Some(g) = &entry.group {
                plan.push(TeardownAction::Deactivate(copy_bytes(g.as_slice())));
            }
            plan.push(TeardownAction::Close(copy_bytes(name.as_slice())));
        }
        assert(teardown_models(plan@) =~= before + teardown_of(name@, table));
        i += 1;
    }
    assert(names.take(encrypted.len() as int) =~= names);
    plan
}

} // verus!
