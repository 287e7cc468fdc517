//! The initialization step: what is asked of the language-support tool,
//! which packages stay off the removal list, which disks are released, and
//! what the step comes to when its branches have ended.

use crate::command::{contains_bytes, Command, CommandModel};
use crate::disk::{Disk, DiskModel, Disks, PartitionModel};
use crate::installer::{Cause, CauseModel, ErrorKind, Installer};
use crate::path::SLASH;
use crate::text::{
    bytes, copy_bytes, first_sep, lemma_first_sep, push_bytes, split, split_bytes, to_bytes, views,
};
use vstd::prelude::*;

verus! {

/// The byte that parts a locale from its encoding.
pub const PERIOD: u8 = 46;

/// The byte that parts the packages in the answer of the language-support
/// tool.
pub const SPACE: u8 = 32;

/// The locale without its encoding: what stands before the first `.`.
pub open spec fn locale_of(lang: Seq<u8>) -> Seq<u8> {
    lang.take(first_sep(lang, PERIOD))
}

/// The call that asks which language packs are installed for the locale.
pub open spec fn language_query_of(lang: Seq<u8>) -> CommandModel {
    CommandModel {
        program: bytes("check-language-support"@),
        args: seq![bytes("--language="@) + locale_of(lang), bytes("--show-installed"@)],
    }
}

/// The call that asks which language packs are installed for the locale of
/// the installation.
pub fn language_query(lang: &[u8]) -> (query: Command)
    ensures
        query@ == language_query_of(lang@),
{
    let mut at: usize = 0;
    while at < lang.len() && lang[at] != PERIOD
        invariant
            0 <= at <= lang.len(),
            forall|k: int| 0 <= k < at ==> lang@[k] != PERIOD,
        decreases lang.len() - at,
    {
        at += 1;
    }
    proof {
        lemma_first_sep(lang@, PERIOD, at as int);
    }
    let mut first = to_bytes("--language=");
    push_bytes(&mut first, vstd::slice::slice_subrange(lang, 0, at));
    assert(first@ =~= bytes("--language="@) + locale_of(lang@));
    let mut args: Vec<Vec<u8>> = Vec::new();
    args.push(first);
    args.push(to_bytes("--show-installed"));
    let query = Command { program: to_bytes("check-language-support"), args };
    assert(query@.args =~= language_query_of(lang@).args);
    query
}

/// The language packs that the tool names in its answer: the pieces
/// between spaces.
pub fn language_packs(answer: &[u8]) -> (packs: Vec<Vec<u8>>)
    ensures
        views(packs@) == split(answer@, SPACE),
{
    split_bytes(answer, SPACE)
}

/// The lines that stay on the removal list: those that are no language
/// pack, in their order.
pub open spec fn kept(lines: Seq<Seq<u8>>, packs: Seq<Seq<u8>>) -> Seq<Seq<u8>>
    decreases lines.len(),
{
    if lines.len() == 0 {
        Seq::empty()
    } else if packs.contains(lines.last()) {
        kept(lines.drop_last(), packs)
    } else {
        kept(lines.drop_last(), packs).push(lines.last())
    }
}

/// A package is removed just when the list names it and it is no language
/// pack that is installed.
pub proof fn law_language_packs_stay(lines: Seq<Seq<u8>>, packs: Seq<Seq<u8>>, x: Seq<u8>)
    ensures
        kept(lines, packs).contains(x) <==> lines.contains(x) && !packs.contains(x),
    decreases lines.len(),
{
    if lines.len() > 0 {
        let front = lines.drop_last();
        let last = lines.last();
        law_language_packs_stay(front, packs, x);
        if lines.contains(x) {
            let i = choose|i: int| 0 <= i < lines.len() && lines[i] == x;
            if i < front.len() {
                assert(front[i] == x);
            }
        }
        if front.contains(x) {
            let i = choose|i: int| 0 <= i < front.len() && front[i] == x;
            assert(lines[i] == x);
        }
        if !packs.contains(last) {
            let k = kept(front, packs);
            let all = k.push(last);
            assert(all[k.len() as int] == last);
            if all.contains(x) {
                let i = choose|i: int| 0 <= i < all.len() && all[i] == x;
                if i < k.len() {
                    assert(k[i] == x);
                }
            }
            if k.contains(x) {
                let i = choose|i: int| 0 <= i < k.len() && k[i] == x;
                assert(all[i] == x);
            }
        }
        assert(lines[lines.len() - 1] == last);
    }
}

/// The packages to remove: the lines of the removal list without those
/// that the language-support tool names as installed.
pub fn filter_removals(lines: &Vec<Vec<u8>>, packs: &Vec<Vec<u8>>) -> (remove: Vec<Vec<u8>>)
    ensures
        views(remove@) == kept(views(lines@), views(packs@)),
{
    let ghost all = views(lines@);
    let mut remove: Vec<Vec<u8>> = Vec::new();
    let mut i: usize = 0;
    assert(views(remove@) =~= kept(all.take(0), views(packs@)));
    while i < lines.len()
        invariant
            0 <= i <= lines.len(),
            all == views(lines@),
            views(remove@) == kept(all.take(i as int), views(packs@)),
        decreases lines.len() - i,
    {
        proof {
            assert(all.take(i + 1).drop_last() =~= all.take(i as int));
            assert(all.take(i + 1).last() == lines@[i as int]@);
        }
        if !contains_bytes(packs, lines[i].as_slice()) {
            let ghost before = views(remove@);
            remove.push(copy_bytes(lines[i].as_slice()));
            assert(views(remove@) =~= before.push(lines@[i as int]@));
        }
        i += 1;
    }
    assert(all.take(lines.len() as int) =~= all);
    remove
}

/// What the image path comes to: the resolved path where it could be
/// resolved and is there; the failure of resolving it; or, where it was
/// resolved and is not there, that it is not found.
pub open spec fn image_of(resolved: Result<Seq<u8>, CauseModel>, exists: bool) -> Result<
    Seq<u8>,
    CauseModel,
> {
    match resolved {
        Ok(path) => if exists {
            Ok(path)
        } else {
            Err(CauseModel { kind: ErrorKind::NotFound, message: "invalid squashfs path"@ })
        },
        Err(c) => Err(c),
    }
}

/// What a path or a failure holds.
pub open spec fn path_outcome(r: Result<Vec<u8>, Cause>) -> Result<Seq<u8>, CauseModel> {
    match r {
        Ok(p) => Ok(p@),
        Err(c) => Err(c@),
    }
}

/// What a list of packages or a failure holds.
pub open spec fn list_outcome(r: Result<Vec<Vec<u8>>, Cause>) -> Result<Seq<Seq<u8>>, CauseModel> {
    match r {
        Ok(l) => Ok(views(l@)),
        Err(c) => Err(c@),
    }
}

/// The source image, given what resolving its path came to and whether
/// the resolved path is there.
pub fn fetch_squashfs(resolved: Result<Vec<u8>, Cause>, exists: bool) -> (image: Result<
    Vec<u8>,
    Cause,
>)
    ensures
        path_outcome(image) == image_of(path_outcome(resolved), exists),
{
    match resolved {
        Ok(path) => {
            if exists {
                Ok(path)
            } else {
                Err(Cause::new(ErrorKind::NotFound, "invalid squashfs path"))
            }
        },
        Err(c) => Err(c),
    }
}

/// How the branches of the initialization step ended.
#[derive(Debug)]
pub struct Branches {
    /// Shutting down logical volumes and encrypted containers, then
    /// unmounting what was mounted.
    pub teardown: Result<(), Cause>,
    /// The packages to remove.
    pub packages: Result<Vec<Vec<u8>>, Cause>,
    /// Checking that every key file can be read.
    pub keyfiles: Result<(), Cause>,
    /// The source image.
    pub squashfs: Result<Vec<u8>, Cause>,
}

/// What the step has to hand on when it succeeds: the source image and the
/// packages to remove.
#[derive(Debug)]
pub struct Prepared {
    pub squashfs: Vec<u8>,
    pub remove: Vec<Vec<u8>>,
}

/// What the initialization step comes to. All branches have run to their
/// end; the step succeeds when all have succeeded, and fails with the
/// cause of the first that failed in this order: the teardown, the key
/// files, the packages, the image.
pub open spec fn initialized(
    teardown: Result<(), CauseModel>,
    packages: Result<Seq<Seq<u8>>, CauseModel>,
    keyfiles: Result<(), CauseModel>,
    squashfs: Result<Seq<u8>, CauseModel>,
) -> Result<(Seq<u8>, Seq<Seq<u8>>), CauseModel> {
    match (teardown, keyfiles, packages, squashfs) {
        (Err(c), _, _, _) => Err(c),
        (Ok(_), Err(c), _, _) => Err(c),
        (Ok(_), Ok(_), Err(c), _) => Err(c),
        (Ok(_), Ok(_), Ok(_), Err(c)) => Err(c),
        (Ok(_), Ok(_), Ok(remove), Ok(image)) => Ok((image, remove)),
    }
}

/// What a prepared step or a failure holds.
pub open spec fn prepared_outcome(r: Result<Prepared, Cause>) -> Result<
    (Seq<u8>, Seq<Seq<u8>>),
    CauseModel,
> {
    match r {
        Ok(p) => Ok((p.squashfs@, views(p.remove@))),
        Err(c) => Err(c@),
    }
}

/// Whether a partition of the disk, or the file system of the whole
/// device, is mounted at present at the root of the running system.
pub open spec fn holds_running_root(disk: DiskModel) -> bool {
    exists|i: int|
        0 <= i < disk.entries().len() && (#[trigger] disk.entries()[i]).mounted_at(seq![SLASH])
}

/// Where the entries that are to be mounted in the installation are
/// mounted at present, in the order of the entries.
pub open spec fn mounted_targets(entries: Seq<PartitionModel>) -> Seq<Seq<u8>>
    decreases entries.len(),
{
    if entries.len() == 0 {
        Seq::empty()
    } else {
        let e = entries.last();
        if e.target is Some && e.mount_point is Some {
            mounted_targets(entries.drop_last()).push(e.mount_point->0)
        } else {
            mounted_targets(entries.drop_last())
        }
    }
}

/// What is to be unmounted before the layout changes: on every physical
/// disk that does not hold the root of the running system, every
/// partition that has a target and is mounted.
pub open spec fn to_release(disks: Seq<DiskModel>) -> Seq<Seq<u8>>
    decreases disks.len(),
{
    if disks.len() == 0 {
        Seq::empty()
    } else if holds_running_root(disks.last()) {
        to_release(disks.drop_last())
    } else {
        to_release(disks.drop_last()) + mounted_targets(disks.last().entries())
    }
}

/// Whether the disk holds the root of the running system.
fn is_running_root(disk: &Disk) -> (yes: bool)
    ensures
        yes == holds_running_root(disk@),
{
    let root: [u8; 1] = [SLASH];
    assert(root@ =~= seq![SLASH]);
    if let Some(fs) = &disk.file_system {
        if fs.mounted_at(root.as_slice()) {
            assert(disk@.entries()[0].mounted_at(seq![SLASH]));
            return true;
        }
    }
    let ghost lead: int = if disk.file_system is Some { 1 } else { 0 };
    let mut i: usize = 0;
    while i < disk.partitions.len()
        invariant
            0 <= i <= disk.partitions.len(),
            root@ == seq![SLASH],
            lead == (if disk.file_system is Some { 1int } else { 0int }),
            disk.file_system matches Some(fs) ==> !fs@.mounted_at(seq![SLASH]),
            forall|k: int| 0 <= k < i ==> !(#[trigger] disk@.partitions[k]).mounted_at(seq![SLASH]),
        decreases disk.partitions.len() - i,
    {
        if disk.partitions[i].mounted_at(root.as_slice()) {
            assert(disk@.partitions[i as int] == disk.partitions@[i as int]@);
            assert(disk@.entries()[lead + i] == disk@.partitions[i as int]);
            return true;
        }
        assert(disk@.partitions[i as int] == disk.partitions@[i as int]@);
        i += 1;
    }
    proof {
        assert forall|k: int| 0 <= k < disk@.entries().len() implies !(
        #[trigger] disk@.entries()[k]).mounted_at(seq![SLASH]) by {
            if k >= lead {
                assert(disk@.entries()[k] == disk@.partitions[k - lead]);
            }
        }
    }
    false
}

impl Installer {
    /// What the initialization step comes to, given how its branches ended.
    /// The first failure in the order teardown, key files, packages, image
    /// is the failure of the step.
    pub fn initialize(branches: Branches) -> (outcome: Result<Prepared, Cause>)
        ensures
            prepared_outcome(outcome) == initialized(
                crate::installer::outcome_model(branches.teardown),
                list_outcome(branches.packages),
                crate::installer::outcome_model(branches.keyfiles),
                path_outcome(branches.squashfs),
            ),
    {
        let Branches { teardown, packages, keyfiles, squashfs } = branches;
        match teardown {
            Err(c) => Err(c),
            Ok(()) => match keyfiles {
                Err(c) => Err(c),
                Ok(()) => match packages {
                    Err(c) => Err(c),
                    Ok(remove) => match squashfs {
                        Err(c) => Err(c),
                        Ok(image) => Ok(Prepared { squashfs: image, remove }),
                    },
                },
            },
        }
    }

    /// Where to unmount before the layout changes: the mount points of the
    /// partitions that have a target and are mounted, on the physical disks
    /// that do not hold the root of the running system.
    pub fn release_plan(disks: &Disks) -> (plan: Vec<Vec<u8>>)
        ensures
            views(plan@) == to_release(disks@.physical),
    {
        let ghost all = disks@.physical;
        let mut plan: Vec<Vec<u8>> = Vec::new();
        let mut i: usize = 0;
        assert(views(plan@) =~= to_release(all.take(0)));
        while i < disks.physical.len()
            invariant
                0 <= i <= disks.physical.len(),
                all == disks@.physical,
                views(plan@) == to_release(all.take(i as int)),
            decreases disks.physical.len() - i,
        {
            let disk = &disks.physical[i];
            proof {
                assert(all.take(i + 1).drop_last() =~= all.take(i as int));
                assert(all.take(i + 1).last() == disk@);
            }
            if !is_running_root(disk) {
                let ghost before = views(plan@);
                let ghost entries = disk@.entries();
                if let Some(fs) = &disk.file_system {
                    if fs.target.is_some() {
                        if let Some(m) = &fs.mount_point {
                            plan.push(copy_bytes(m.as_slice()));
                        }
                    }
                }
                let ghost lead: int = if disk.file_system is Some { 1 } else { 0 };
                proof {
                    assert(mounted_targets(entries.take(0)) =~= Seq::<Seq<u8>>::empty());
                    if disk.file_system is Some {
                        assert(entries.take(1).drop_last() =~= entries.take(0));
                        assert(entries.take(1).last() == disk.file_system->0@);
                    }
                    assert(views(plan@) =~= before + mounted_targets(entries.take(lead)));
                }
                let mut j: usize = 0;
                while j < disk.partitions.len()
                    invariant
                        0 <= j <= disk.partitions.len(),
                        entries == disk@.entries(),
                        lead == (if disk.file_system is Some { 1int } else { 0int }),
                        views(plan@) == before + mounted_targets(entries.take(lead + j)),
                    decreases disk.partitions.len() - j,
                {
                    let part = &disk.partitions[j];
                    let ghost inner = views(plan@);
                    proof {
                        assert(entries.take(lead + j + 1).drop_last() =~= entries.take(lead + j));
                        assert(entries.take(lead + j + 1).last() == disk@.partitions[j as int]);
                        assert(disk@.partitions[j as int] == part@);
                    }
                    if part.target.is_some() {
                        if let Some(m) = &part.mount_point {
                            plan.push(copy_bytes(m.as_slice()));
                            assert(views(plan@) =~= inner.push(m@));
                        }
                    }
                    assert(views(plan@) =~= before + mounted_targets(entries.take(lead + j + 1)));
                    j += 1;
                }
                assert(entries.take(lead + disk.partitions.len()) =~= entries);
            }
            i += 1;
        }
        assert(all.take(disks.physical.len() as int) =~= all);
        plan
    }
}

} // verus!
