//! The mount engine: which partitions are mounted where under the root
//! directory of the installation, in which order, and in which order the
//! mounts are released.

use crate::disk::{mount_type_name, Disks, PartitionInfo, PartitionModel};
use crate::installer::Installer;
use crate::path::{
    compare_paths, is_ancestor, join, join_under, lemma_ancestor_first, lemma_path_lt_transitive,
    lemma_path_order, path_lt, same_path, Order,
};
use crate::text::{bytes, copy_bytes, to_bytes};
use vstd::prelude::*;

verus! {

/// The flag that asks for a bind mount.
pub const BIND: u64 = 4096;

/// A mount as the mathematical model has it.
pub struct MountModel {
    pub source: Seq<u8>,
    pub dest: Seq<u8>,
    pub fstype: Seq<char>,
    pub flags: u64,
}

/// What is handed to the mount primitive, and what stands for the mount
/// while it is live: the device, the directory, the type and the flags.
#[derive(Debug)]
pub struct Mount {
    pub source: Vec<u8>,
    pub dest: Vec<u8>,
    pub fstype: &'static str,
    pub flags: u64,
}

impl View for Mount {
    type V = MountModel;

    open spec fn view(&self) -> MountModel {
        MountModel {
            source: self.source@,
            dest: self.dest@,
            fstype: self.fstype@,
            flags: self.flags,
        }
    }
}

/// The models of the mounts of `v`, in order.
pub open spec fn mount_models(v: Seq<Mount>) -> Seq<MountModel> {
    Seq::new(v.len(), |i: int| v[i]@)
}

/// Why the targets cannot be mounted.
#[derive(Debug)]
pub enum MountError {
    /// Two partitions are to be mounted at the same place.
    DuplicateDestination { dest: Vec<u8> },
}

/// A partition is mounted where it has both a target and a file system.
pub open spec fn mountable(p: PartitionModel) -> bool {
    p.target is Some && p.filesystem is Some
}

/// The mount of a partition below `root`.
pub open spec fn mount_of(p: PartitionModel, root: Seq<u8>) -> MountModel {
    MountModel {
        source: p.device_path,
        dest: join_under(root, p.target->0),
        fstype: mount_type_name(p.filesystem->0),
        flags: 0,
    }
}

/// The mounts that the entries ask for, in the order of the entries.
pub open spec fn wanted(entries: Seq<PartitionModel>, root: Seq<u8>) -> Seq<MountModel>
    decreases entries.len(),
{
    if entries.len() == 0 {
        Seq::empty()
    } else if mountable(entries.last()) {
        wanted(entries.drop_last(), root).push(mount_of(entries.last(), root))
    } else {
        wanted(entries.drop_last(), root)
    }
}

/// The mount at `j` goes to a place that an earlier mount goes to.
pub open spec fn collides(m: Seq<MountModel>, j: int) -> bool {
    exists|i: int| 0 <= i < j && same_path(#[trigger] m[i].dest, m[j].dest)
}

/// The mount at `j` is the first that goes to a place that an earlier
/// mount goes to.
pub open spec fn first_collision(m: Seq<MountModel>, j: int) -> bool {
    &&& 0 <= j < m.len()
    &&& collides(m, j)
    &&& forall|k: int| 0 <= k < j ==> !collides(m, k)
}

/// No two mounts go to the same place.
pub open spec fn distinct(m: Seq<MountModel>) -> bool {
    forall|j: int| 0 <= j < m.len() ==> !collides(m, j)
}

/// The mounts stand in the order of the index of paths.
pub open spec fn sorted(m: Seq<MountModel>) -> bool {
    forall|i: int, j: int|
        #![trigger m[i], m[j]]
        0 <= i < j < m.len() ==> path_lt(m[i].dest, m[j].dest)
}

/// Every directory is mounted before what lies below it.
pub open spec fn ancestors_first(m: Seq<MountModel>) -> bool {
    forall|i: int, j: int|
        #![trigger m[i], m[j]]
        0 <= i < m.len() && 0 <= j < m.len() && is_ancestor(m[i].dest, m[j].dest) ==> i < j
}

/// Mounts in the order of the index of paths have every directory before
/// what lies below it.
pub proof fn lemma_sorted_ancestors_first(m: Seq<MountModel>)
    requires
        sorted(m),
    ensures
        ancestors_first(m),
{
    assert forall|i: int, j: int|
        #![trigger m[i], m[j]]
        0 <= i < m.len() && 0 <= j < m.len() && is_ancestor(m[i].dest, m[j].dest) implies i
        < j by {
        lemma_ancestor_first(m[i].dest, m[j].dest);
        lemma_path_order(m[i].dest, m[j].dest);
        if j < i {
            assert(path_lt(m[j].dest, m[i].dest));
        }
    }
}

/// The mounts of a longer run of entries start with those of a shorter.
pub proof fn lemma_wanted_grows(entries: Seq<PartitionModel>, root: Seq<u8>, k: int)
    requires
        0 <= k <= entries.len(),
    ensures
        wanted(entries.take(k), root).is_prefix_of(wanted(entries, root)),
    decreases entries.len() - k,
{
    if k == entries.len() {
        assert(entries.take(k) =~= entries);
    } else {
        lemma_wanted_grows(entries, root, k + 1);
        assert(entries.take(k + 1).drop_last() =~= entries.take(k));
    }
}

/// Placing a mount into sorted mounts, after all that come before it and
/// before the first that comes after it, keeps them sorted and adds just
/// that mount.
pub proof fn lemma_insert_sorted(m: Seq<MountModel>, pos: int, b: MountModel)
    requires
        sorted(m),
        0 <= pos <= m.len(),
        forall|t: int| 0 <= t < pos ==> path_lt((#[trigger] m[t]).dest, b.dest),
        pos < m.len() ==> path_lt(b.dest, m[pos].dest),
    ensures
        sorted(m.insert(pos, b)),
        m.insert(pos, b).to_multiset() == m.to_multiset().insert(b),
        forall|t: int| 0 <= t < m.len() ==> !same_path((#[trigger] m[t]).dest, b.dest),
{
    let n = m.insert(pos, b);
    assert forall|t: int| pos <= t < m.len() implies path_lt(b.dest, (#[trigger] m[t]).dest) by {
        if t > pos {
            assert(path_lt(m[pos].dest, m[t].dest));
            lemma_path_lt_transitive(b.dest, m[pos].dest, m[t].dest);
        }
    }
    assert forall|t: int| 0 <= t < m.len() implies !same_path((#[trigger] m[t]).dest, b.dest) by {
        lemma_path_order(m[t].dest, b.dest);
    }
    assert forall|i: int, j: int|
        #![trigger n[i], n[j]]
        0 <= i < j < n.len() implies path_lt(n[i].dest, n[j].dest) by {
        if j < pos {
            assert(n[i] == m[i] && n[j] == m[j]);
        } else if j == pos {
            assert(n[i] == m[i]);
        } else if i < pos {
            assert(n[i] == m[i] && n[j] == m[j - 1]);
            lemma_path_lt_transitive(m[i].dest, b.dest, m[j - 1].dest);
        } else if i == pos {
            assert(n[j] == m[j - 1]);
        } else {
            assert(n[i] == m[i - 1] && n[j] == m[j - 1]);
        }
    }
    assert(n.remove(pos) =~= m);
    vstd::seq_lib::to_multiset_remove(n, pos);
    assert(n[pos] == b);
    n.to_multiset_ensures();
    assert(n.contains(b));
    assert(n.to_multiset() =~= m.to_multiset().insert(b));
}

/// Where a mount stands among the others, as many times as there.
proof fn lemma_same_members(a: Seq<MountModel>, b: Seq<MountModel>, x: MountModel)
    requires
        a.to_multiset() == b.to_multiset(),
        a.contains(x),
    ensures
        b.contains(x),
{
    a.to_multiset_ensures();
    b.to_multiset_ensures();
    assert(a.to_multiset().count(x) > 0);
    assert(b.to_multiset().count(x) > 0);
}

/// A mount to a place that one of the mounts made so far goes to is the
/// first collision of the whole.
proof fn lemma_collision(
    done: Seq<MountModel>,
    b: MountModel,
    goal: Seq<MountModel>,
    placed: Seq<MountModel>,
    pos: int,
)
    requires
        placed.to_multiset() == done.to_multiset(),
        0 <= pos < placed.len(),
        same_path(placed[pos].dest, b.dest),
        distinct(done),
        done.push(b).is_prefix_of(goal),
    ensures
        done.len() < goal.len(),
        goal[done.len() as int] == b,
        collides(goal, done.len() as int),
        forall|k: int| 0 <= k < done.len() ==> !collides(goal, k),
{
    let next = done.push(b);
    let j = done.len() as int;
    assert forall|q: int| 0 <= q <= j implies goal[q] == next[q] by {
        assert(goal.subrange(0, next.len() as int)[q] == goal[q]);
    }
    assert(next[j] == b);
    assert(placed.contains(placed[pos]));
    lemma_same_members(placed, done, placed[pos]);
    let i = choose|i: int| 0 <= i < done.len() && done[i] == placed[pos];
    assert(next[i] == done[i]);
    assert(same_path(goal[i].dest, goal[j].dest));
    assert forall|q: int| 0 <= q < j implies !collides(goal, q) by {
        if collides(goal, q) {
            let p = choose|p: int| 0 <= p < q && same_path(#[trigger] goal[p].dest, goal[q].dest);
            assert(next[p] == done[p] && next[q] == done[q]);
            assert(same_path(done[p].dest, done[q].dest));
            assert(collides(done, q));
        }
    }
}

/// A mount to a place that none of the mounts made so far goes to keeps
/// the places distinct.
proof fn lemma_no_collision(done: Seq<MountModel>, b: MountModel, placed: Seq<MountModel>)
    requires
        placed.to_multiset() == done.to_multiset(),
        distinct(done),
        forall|t: int| 0 <= t < placed.len() ==> !same_path((#[trigger] placed[t]).dest, b.dest),
    ensures
        distinct(done.push(b)),
{
    let next = done.push(b);
    assert forall|q: int| 0 <= q < next.len() implies !collides(next, q) by {
        if collides(next, q) {
            let p = choose|p: int| 0 <= p < q && same_path(#[trigger] next[p].dest, next[q].dest);
            assert(next[p] == done[p]);
            if q < done.len() {
                assert(next[q] == done[q]);
                assert(same_path(done[p].dest, done[q].dest));
                assert(collides(done, q));
            } else {
                assert(done.contains(done[p]));
                lemma_same_members(done, placed, done[p]);
                let t = choose|t: int| 0 <= t < placed.len() && placed[t] == done[p];
                assert(!same_path(placed[t].dest, b.dest));
            }
        }
    }
}

/// The place of `dest` among sorted mounts: behind all that come before
/// it. The flag says whether the mount at that place goes to the same
/// place as `dest`.
fn place_of(mounts: &Vec<Mount>, dest: &[u8]) -> (place: (usize, bool))
    ensures
        place.0 <= mounts.len(),
        forall|t: int| 0 <= t < place.0 ==> path_lt((#[trigger] mount_models(mounts@)[t]).dest, dest@),
        place.1 ==> place.0 < mounts.len() && same_path(
            mount_models(mounts@)[place.0 as int].dest,
            dest@,
        ),
        !place.1 && place.0 < mounts.len() ==> path_lt(
            dest@,
            mount_models(mounts@)[place.0 as int].dest,
        ),
{
    let ghost placed = mount_models(mounts@);
    let mut pos: usize = 0;
    while pos < mounts.len()
        invariant
            0 <= pos <= mounts.len(),
            placed == mount_models(mounts@),
            forall|t: int| 0 <= t < pos ==> path_lt((#[trigger] placed[t]).dest, dest@),
        decreases mounts.len() - pos,
    {
        let order = compare_paths(mounts[pos].dest.as_slice(), dest);
        assert(placed[pos as int] == mounts@[pos as int]@);
        match order {
            Order::Before => {
                pos += 1;
            },
            Order::Same => {
                return (pos, true);
            },
            Order::After => {
                return (pos, false);
            },
        }
    }
    (pos, false)
}

impl Installer {
    /// The mounts that the layout asks for below `chroot`, in the order in
    /// which they are to be made: the order of the index of paths, in which
    /// every directory comes before what lies below it. Two partitions that
    /// are to be mounted at the same place are refused, with the place of
    /// the first that collides with an earlier one.
    pub fn mount(disks: &Disks, chroot: &[u8]) -> (plan: Result<Vec<Mount>, MountError>)
        ensures
            match plan {
                Ok(mounts) => {
                    &&& distinct(wanted(disks@.entries(), chroot@))
                    &&& sorted(mount_models(mounts@))
                    &&& ancestors_first(mount_models(mounts@))
                    &&& mount_models(mounts@).to_multiset() == wanted(
                        disks@.entries(),
                        chroot@,
                    ).to_multiset()
                },
                Err(MountError::DuplicateDestination { dest }) => {
                    let all = wanted(disks@.entries(), chroot@);
                    exists|j: int| #[trigger] first_collision(all, j) && all[j].dest == dest@
                },
            },
    {
        let all = disks.entries();
        let ghost entries = disks@.entries();
        let ghost goal = wanted(entries, chroot@);
        let mut mounts: Vec<Mount> = Vec::new();
        let mut k: usize = 0;
        assert(entries.take(0) =~= Seq::empty());
        assert(mount_models(mounts@) =~= Seq::empty());
        while k < all.len()
            invariant
                0 <= k <= all.len(),
                crate::disk::ref_models(all@) == entries,
                entries == disks@.entries(),
                goal == wanted(entries, chroot@),
                sorted(mount_models(mounts@)),
                distinct(wanted(entries.take(k as int), chroot@)),
                mount_models(mounts@).to_multiset() == wanted(
                    entries.take(k as int),
                    chroot@,
                ).to_multiset(),
            decreases all.len() - k,
        {
            let part: &PartitionInfo = all[k];
            let ghost done = wanted(entries.take(k as int), chroot@);
            let ghost next = wanted(entries.take(k + 1), chroot@);
            proof {
                assert(crate::disk::ref_models(all@)[k as int] == part@);
                assert(entries.take(k + 1).drop_last() =~= entries.take(k as int));
                assert(entries.take(k + 1).last() == part@);
                lemma_wanted_grows(entries, chroot@, k + 1);
            }
            if part.filesystem.is_some() && part.target.is_some() {
                let fs = part.filesystem.unwrap();
                let dest = match &part.target {
                    Some(t) => join(chroot, t.as_slice()),
                    None => Vec::new(),
                };
                let ghost b = mount_of(part@, chroot@);
                let ghost placed = mount_models(mounts@);
                assert(next == done.push(b));
                let (pos, taken) = place_of(&mounts, dest.as_slice());
                if taken {
                    proof {
                        lemma_collision(done, b, goal, placed, pos as int);
                        assert(first_collision(goal, done.len() as int));
                    }
                    return Err(MountError::DuplicateDestination { dest });
                }
                let mount = Mount {
                    source: copy_bytes(part.device_path.as_slice()),
                    dest,
                    fstype: fs.mount_type(),
                    flags: 0,
                };
                assert(mount@ == b);
                proof {
                    lemma_insert_sorted(placed, pos as int, b);
                    lemma_no_collision(done, b, placed);
                    done.to_multiset_ensures();
                }
                mounts.insert(pos, mount);
                assert(mount_models(mounts@) =~= placed.insert(pos as int, b));
            } else {
                assert(next == done);
            }
            k += 1;
        }
        proof {
            assert(entries.take(all.len() as int) =~= entries);
            lemma_sorted_ancestors_first(mount_models(mounts@));
        }
        Ok(mounts)
    }
}

/// The bind mount of `source` at `target`.
pub open spec fn bind_of(source: Seq<u8>, target: Seq<u8>) -> MountModel {
    MountModel { source, dest: target, fstype: "none"@, flags: BIND }
}

/// The bind mount of `source` at `target`, where the source exists; no
/// mount where it does not.
pub fn mount_bind_if_exists(source: &[u8], target: &[u8], exists: bool) -> (mount: Option<Mount>)
    ensures
        match mount {
            Some(m) => exists && m@ == bind_of(source@, target@),
            None => !exists,
        },
{
    if exists {
        Some(Mount { source: copy_bytes(source), dest: copy_bytes(target), fstype: "none", flags: BIND })
    } else {
        None
    }
}

/// The bind mount that shows the installation medium inside the root
/// directory of the installation, where the medium is there.
pub fn mount_cdrom(mount_dir: &[u8], exists: bool) -> (mount: Option<Mount>)
    ensures
        match mount {
            Some(m) => exists && m@ == bind_of(
                bytes("/cdrom"@),
                join_under(mount_dir@, bytes("cdrom"@)),
            ),
            None => !exists,
        },
{
    let source = to_bytes("/cdrom");
    let name = to_bytes("cdrom");
    let target = join(mount_dir, name.as_slice());
    mount_bind_if_exists(source.as_slice(), target.as_slice(), exists)
}

/// The bind mount that shows the variables of the firmware inside the root
/// directory of the installation, where the machine has them.
pub fn mount_efivars(mount_dir: &[u8], exists: bool) -> (mount: Option<Mount>)
    ensures
        match mount {
            Some(m) => exists && m@ == bind_of(
                bytes("/sys/firmware/efi/efivars"@),
                join_under(mount_dir@, bytes("sys/firmware/efi/efivars"@)),
            ),
            None => !exists,
        },
{
    let source = to_bytes("/sys/firmware/efi/efivars");
    let name = to_bytes("sys/firmware/efi/efivars");
    let target = join(mount_dir, name.as_slice());
    mount_bind_if_exists(source.as_slice(), target.as_slice(), exists)
}

/// The live mounts of a run, in the order in which they were made.
#[derive(Debug)]
pub struct Mounts(pub Vec<Mount>);

impl View for Mounts {
    type V = Seq<MountModel>;

    open spec fn view(&self) -> Seq<MountModel> {
        mount_models(self.0@)
    }
}

impl Mounts {
    /// No mounts.
    pub fn new() -> (mounts: Mounts)
        ensures
            mounts@ == Seq::<MountModel>::empty(),
    {
        let mounts = Mounts(Vec::new());
        assert(mounts@ =~= Seq::<MountModel>::empty());
        mounts
    }

    /// Records a mount that has just been made.
    pub fn push(&mut self, mount: Mount)
        ensures
            final(self)@ == old(self)@.push(mount@),
    {
        self.0.push(mount);
        assert(self@ =~= old(self)@.push(mount@));
    }

    /// How many mounts are live.
    pub fn len(&self) -> (n: usize)
        ensures
            n == self@.len(),
    {
        self.0.len()
    }

    /// Hands out all mounts for release, the last that was made first, and
    /// keeps none.
    pub fn unmount(&mut self) -> (order: Vec<Mount>)
        ensures
            mount_models(order@) == old(self)@.reverse(),
            final(self)@.len() == 0,
    {
        let ghost all = self@;
        let mut order: Vec<Mount> = Vec::new();
        while self.0.len() > 0
            invariant
                self@ == all.take(self.0.len() as int),
                self.0.len() <= all.len(),
                order.len() == all.len() - self.0.len(),
                forall|i: int|
                    0 <= i < order.len() ==> mount_models(order@)[i] == all[all.len() - 1 - i],
            decreases self.0.len(),
        {
            let ghost before = mount_models(order@);
            let ghost n = self.0.len();
            let last = self.0.pop();
            match last {
                Some(mount) => {
                    assert(mount@ == all.take(n as int)[n - 1]);
                    order.push(mount);
                    assert(mount_models(order@) =~= before.push(mount@));
                    assert(self@ =~= all.take(n - 1));
                },
                None => {},
            }
        }
        assert(mount_models(order@) =~= all.reverse());
        order
    }
}

} // verus!
