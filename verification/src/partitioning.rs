//! The partitioning step: what its two tracks come to, which volume groups
//! the changed disks touch, and the order of the work around the re-reading
//! of the partition tables.

use crate::disk::{DiskModel, Disks, PartitionModel};
use crate::installer::{outcome_model, Cause, CauseModel, Installer};
use crate::path::{compare_paths, same_path, Order};
use crate::text::{copy_bytes, views};
use itertools::Itertools;
use vstd::prelude::*;

verus! {

/// A physical volume and the volume group it belongs to, if it belongs to
/// one.
#[derive(Debug)]
pub struct PvEntry {
    pub device: Vec<u8>,
    pub group: Option<Vec<u8>>,
}

/// The physical volumes with their volume groups, as the mathematical model
/// has them.
pub type PvModel = Seq<(Seq<u8>, Option<Seq<u8>>)>;

/// The models of the entries of `v`, in order.
pub open spec fn pv_models(v: Seq<PvEntry>) -> PvModel {
    Seq::new(v.len(), |i: int| (v[i].device@, crate::disk::opt_bytes(v[i].group)))
}

/// The volume group of the device: that of the first entry for the device,
/// if there is an entry and it names a group.
pub open spec fn group_of(pvs: PvModel, device: Seq<u8>) -> Option<Seq<u8>>
    decreases pvs.len(),
{
    if pvs.len() == 0 {
        None
    } else if same_path(pvs[0].0, device) {
        pvs[0].1
    } else {
        group_of(pvs.drop_first(), device)
    }
}

/// The volume groups of the partitions, in the order of the partitions.
pub open spec fn groups_on(parts: Seq<PartitionModel>, pvs: PvModel) -> Seq<Seq<u8>>
    decreases parts.len(),
{
    if parts.len() == 0 {
        Seq::empty()
    } else {
        match group_of(pvs, parts.last().device_path) {
            Some(g) => groups_on(parts.drop_last(), pvs).push(g),
            None => groups_on(parts.drop_last(), pvs),
        }
    }
}

/// The volume groups of the partitions of the disks, disk after disk.
pub open spec fn touched(disks: Seq<DiskModel>, pvs: PvModel) -> Seq<Seq<u8>>
    decreases disks.len(),
{
    if disks.len() == 0 {
        Seq::empty()
    } else {
        touched(disks.drop_last(), pvs) + groups_on(disks.last().partitions, pvs)
    }
}

/// The names without repetition: each name where it stands first.
pub open spec fn first_occurrences(names: Seq<Seq<u8>>) -> Seq<Seq<u8>>
    decreases names.len(),
{
    if names.len() == 0 {
        Seq::empty()
    } else if names.drop_last().contains(names.last()) {
        first_occurrences(names.drop_last())
    } else {
        first_occurrences(names.drop_last()).push(names.last())
    }
}

/// `Itertools::unique` over the names: the adaptor lets each name through
/// the first time it comes and holds it back every later time, so what is
/// collected is each name once, in the order of first appearance.
#[verifier::external_body]
fn unique_names(names: Vec<Vec<u8>>) -> (out: Vec<Vec<u8>>)
    ensures
        views(out@) == first_occurrences(views(names@)),
{
    names.into_iter().unique().collect()
}

/// The volume group of the device, if the physical volumes name one.
pub fn lookup_group<'a>(pvs: &'a Vec<PvEntry>, device: &[u8]) -> (group: Option<&'a Vec<u8>>)
    ensures
        match group {
            Some(g) => group_of(pv_models(pvs@), device@) == Some(g@),
            None => group_of(pv_models(pvs@), device@) is None,
        },
{
    let ghost all = pv_models(pvs@);
    let mut i: usize = 0;
    assert(all.skip(0) =~= all);
    while i < pvs.len()
        invariant
            0 <= i <= pvs.len(),
            all == pv_models(pvs@),
            group_of(all, device@) == group_of(all.skip(i as int), device@),
        decreases pvs.len() - i,
    {
        proof {
            assert(all.skip(i as int)[0] == all[i as int]);
            assert(all.skip(i as int).drop_first() =~= all.skip(i + 1));
        }
        if compare_paths(pvs[i].device.as_slice(), device) == Order::Same {
            return match &pvs[i].group {
                Some(g) => Some(g),
                None => None,
            };
        }
        i += 1;
    }
    None
}

/// The volume groups that the partitions of the physical disks belong to,
/// each once, in the order in which the partitions first name them.
pub fn volume_groups(disks: &Disks, pvs: &Vec<PvEntry>) -> (groups: Vec<Vec<u8>>)
    ensures
        views(groups@) == first_occurrences(touched(disks@.physical, pv_models(pvs@))),
{
    let ghost all = disks@.physical;
    let ghost table = pv_models(pvs@);
    let mut named: Vec<Vec<u8>> = Vec::new();
    let mut i: usize = 0;
    assert(views(named@) =~= touched(all.take(0), table));
    while i < disks.physical.len()
        invariant
            0 <= i <= disks.physical.len(),
            all == disks@.physical,
            table == pv_models(pvs@),
            views(named@) == touched(all.take(i as int), table),
        decreases disks.physical.len() - i,
    {
        let disk = &disks.physical[i];
        let ghost before = views(named@);
        let ghost parts = disk@.partitions;
        proof {
            assert(all.take(i + 1).drop_last() =~= all.take(i as int));
            assert(all.take(i + 1).last() == disk@);
            assert(before + groups_on(parts.take(0), table) =~= before);
        }
        let mut j: usize = 0;
        while j < disk.partitions.len()
            invariant
                0 <= j <= disk.partitions.len(),
                table == pv_models(pvs@),
                parts == disk@.partitions,
                views(named@) == before + groups_on(parts.take(j as int), table),
            decreases disk.partitions.len() - j,
        {
            let ghost inner = views(named@);
            proof {
                assert(parts.take(j + 1).drop_last() =~= parts.take(j as int));
                assert(parts.take(j + 1).last() == disk.partitions@[j as int]@);
            }
            if let Some(g) = lookup_group(pvs, disk.partitions[j].device_path.as_slice()) {
                named.push(copy_bytes(g.as_slice()));
                assert(views(named@) =~= inner.push(g@));
            }
            assert(views(named@) =~= before + groups_on(parts.take(j + 1), table));
            j += 1;
        }
        assert(parts.take(disk.partitions.len() as int) =~= parts);
        i += 1;
    }
    assert(all.take(disks.physical.len() as int) =~= all);
    unique_names(named)
}

/// What the formatting of the collected partitions comes to: success where
/// every partition was formatted, else the first failure in the order of
/// the partitions.
pub open spec fn first_failure(results: Seq<Result<(), CauseModel>>) -> Result<(), CauseModel>
    decreases results.len(),
{
    if results.len() == 0 {
        Ok(())
    } else {
        match results[0] {
            Err(c) => Err(c),
            Ok(_) => first_failure(results.drop_first()),
        }
    }
}

/// The outcomes of `v` as the mathematical model has them.
pub open spec fn outcome_models(v: Seq<Result<(), Cause>>) -> Seq<Result<(), CauseModel>> {
    Seq::new(v.len(), |i: int| outcome_model(v[i]))
}

/// What the formatting of the collected partitions comes to, given how the
/// formatting of each went.
pub fn format_outcome(results: &Vec<Result<(), Cause>>) -> (outcome: Result<(), Cause>)
    ensures
        outcome_model(outcome) == first_failure(outcome_models(results@)),
{
    let ghost all = outcome_models(results@);
    let mut i: usize = 0;
    assert(all.skip(0) =~= all);
    while i < results.len()
        invariant
            0 <= i <= results.len(),
            all == outcome_models(results@),
            first_failure(all) == first_failure(all.skip(i as int)),
        decreases results.len() - i,
    {
        proof {
            assert(all.skip(i as int)[0] == all[i as int]);
            assert(all[i as int] == outcome_model(results@[i as int]));
            assert(all.skip(i as int).drop_first() =~= all.skip(i + 1));
        }
        if let Err(c) = &results[i] {
            return Err(c.duplicate());
        }
        i += 1;
    }
    Ok(())
}

/// What the partitioning step comes to when both tracks have ended: the
/// failure of the track that commits and formats where it failed, else the
/// failure of the query for physical volumes where that failed, else the
/// physical volumes.
pub open spec fn partitioned(
    pvs: Result<PvModel, CauseModel>,
    commit: Result<(), CauseModel>,
) -> Result<PvModel, CauseModel> {
    match commit {
        Err(c) => Err(c),
        Ok(_) => pvs,
    }
}

/// What physical volumes or a failure hold.
pub open spec fn pv_outcome(r: Result<Vec<PvEntry>, Cause>) -> Result<PvModel, CauseModel> {
    match r {
        Ok(v) => Ok(pv_models(v@)),
        Err(c) => Err(c@),
    }
}

/// A failure to format any one partition is the failure of the step,
/// whatever the query for physical volumes came to.
pub proof fn law_format_failure_surfaces(
    results: Seq<Result<(), CauseModel>>,
    pvs: Result<PvModel, CauseModel>,
    i: int,
)
    requires
        0 <= i < results.len(),
        results[i] is Err,
    ensures
        first_failure(results) is Err,
        partitioned(pvs, first_failure(results)) == Err::<PvModel, CauseModel>(
            first_failure(results)->Err_0,
        ),
    decreases results.len(),
{
    if results[0] is Ok {
        assert(results.drop_first()[i - 1] == results[i]);
        law_format_failure_surfaces(results.drop_first(), pvs, i - 1);
    }
}

/// One piece of the work around the re-reading of the partition tables, as
/// the mathematical model has it.
pub enum CycleModel {
    Deactivate(Seq<u8>),
    Settle,
    Reread(int),
    Activate(Seq<u8>),
    CommitLogical,
}

/// One piece of the work around the re-reading of the partition tables.
#[derive(Debug)]
pub enum CycleAction {
    /// Deactivate the volume group.
    Deactivate(Vec<u8>),
    /// Wait a moment so that the system can follow.
    Settle,
    /// Ask the system to re-read the partition table of the physical disk
    /// with this index.
    Reread(usize),
    /// Activate the volume group.
    Activate(Vec<u8>),
    /// Commit what is to be done to logical partitions.
    CommitLogical,
}

impl View for CycleAction {
    type V = CycleModel;

    open spec fn view(&self) -> CycleModel {
        match self {
            CycleAction::Deactivate(g) => CycleModel::Deactivate(g@),
            CycleAction::Settle => CycleModel::Settle,
            CycleAction::Reread(i) => CycleModel::Reread(*i as int),
            CycleAction::Activate(g) => CycleModel::Activate(g@),
            CycleAction::CommitLogical => CycleModel::CommitLogical,
        }
    }
}

impl CycleAction {
    /// Whether a failure of this piece is passed over: only the re-reading
    /// of a partition table is.
    pub fn tolerated(&self) -> (yes: bool)
        ensures
            yes == (self@ is Reread),
    {
        match self {
            CycleAction::Reread(_) => true,
            _ => false,
        }
    }
}

/// The models of the actions of `v`, in order.
pub open spec fn cycle_models(v: Seq<CycleAction>) -> Seq<CycleModel> {
    Seq::new(v.len(), |i: int| v[i]@)
}

/// The work after the tables have been written: deactivate each volume
/// group, wait, ask for each physical disk's table to be re-read, wait,
/// activate each volume group, commit the logical partitions.
pub open spec fn cycle_of(groups: Seq<Seq<u8>>, disks: nat) -> Seq<CycleModel> {
    Seq::new(groups.len(), |i: int| CycleModel::Deactivate(groups[i])) + seq![CycleModel::Settle]
        + Seq::new(disks, |i: int| CycleModel::Reread(i)) + seq![CycleModel::Settle] + Seq::new(
        groups.len(),
        |i: int| CycleModel::Activate(groups[i]),
    ) + seq![CycleModel::CommitLogical]
}

/// The work after the tables have been written, in its order.
pub fn cycle_plan(groups: &Vec<Vec<u8>>, disks: usize) -> (plan: Vec<CycleAction>)
    ensures
        cycle_models(plan@) == cycle_of(views(groups@), disks as nat),
{
    let ghost names = views(groups@);
    let mut plan: Vec<CycleAction> = Vec::new();
    let mut i: usize = 0;
    while i < groups.len()
        invariant
            0 <= i <= groups.len(),
            names == views(groups@),
            cycle_models(plan@) == Seq::new(i as nat, |k: int| CycleModel::Deactivate(names[k])),
        decreases groups.len() - i,
    {
        let ghost before = cycle_models(plan@);
        plan.push(CycleAction::Deactivate(copy_bytes(groups[i].as_slice())));
        assert(names[i as int] == groups@[i as int]@);
        assert(cycle_models(plan@) =~= before.push(CycleModel::Deactivate(names[i as int])));
        assert(cycle_models(plan@) =~= Seq::new(
            (i + 1) as nat,
            |k: int| CycleModel::Deactivate(names[k]),
        ));
        i += 1;
    }
    let ghost deactivated = cycle_models(plan@);
    plan.push(CycleAction::Settle);
    let ghost first = cycle_models(plan@);
    assert(first =~= deactivated.push(CycleModel::Settle));
    assert(first =~= Seq::new(groups.len() as nat, |k: int| CycleModel::Deactivate(names[k]))
        + seq![CycleModel::Settle]);
    let mut d: usize = 0;
    while d < disks
        invariant
            0 <= d <= disks,
            cycle_models(plan@) == first + Seq::new(d as nat, |k: int| CycleModel::Reread(k)),
        decreases disks - d,
    {
        let ghost before = cycle_models(plan@);
        plan.push(CycleAction::Reread(d));
        assert(cycle_models(plan@) =~= before.push(CycleModel::Reread(d as int)));
        assert(cycle_models(plan@) =~= first + Seq::new(
            (d + 1) as nat,
            |k: int| CycleModel::Reread(k),
        ));
        d += 1;
    }
    let ghost reread = cycle_models(plan@);
    plan.push(CycleAction::Settle);
    let ghost second = cycle_models(plan@);
    assert(second =~= reread.push(CycleModel::Settle));
    assert(second =~= first + Seq::new(disks as nat, |k: int| CycleModel::Reread(k))
        + seq![CycleModel::Settle]);
    let mut j: usize = 0;
    while j < groups.len()
        invariant
            0 <= j <= groups.len(),
            names == views(groups@),
            cycle_models(plan@) == second + Seq::new(
                j as nat,
                |k: int| CycleModel::Activate(names[k]),
            ),
        decreases groups.len() - j,
    {
        let ghost before = cycle_models(plan@);
        plan.push(CycleAction::Activate(copy_bytes(groups[j].as_slice())));
        assert(names[j as int] == groups@[j as int]@);
        assert(cycle_models(plan@) =~= before.push(CycleModel::Activate(names[j as int])));
        assert(cycle_models(plan@) =~= second + Seq::new(
            (j + 1) as nat,
            |k: int| CycleModel::Activate(names[k]),
        ));
        j += 1;
    }
    let ghost activated = cycle_models(plan@);
    plan.push(CycleAction::CommitLogical);
    assert(cycle_models(plan@) =~= activated.push(CycleModel::CommitLogical));
    assert(cycle_models(plan@) =~= cycle_of(names, disks as nat));
    plan
}

impl Installer {
    /// What the partitioning step comes to when both its tracks have ended.
    /// A failure of the track that commits and formats comes before a
    /// failure of the query for physical volumes.
    pub fn partition(pvs: Result<Vec<PvEntry>, Cause>, commit: Result<(), Cause>) -> (outcome:
        Result<Vec<PvEntry>, Cause>)
        ensures
            pv_outcome(outcome) == partitioned(pv_outcome(pvs), outcome_model(commit)),
    {
        match commit {
            Err(c) => Err(c),
            Ok(()) => pvs,
        }
    }
}

} // verus!
