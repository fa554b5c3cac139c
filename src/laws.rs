//! Properties that hold of every diff.

use vstd::prelude::*;
use crate::datasets::{BlueprintDatasetConfigForDiff, DatasetUuid, ModifiedDataset, dataset_ids_distinct, dataset_missing_from, dataset_modified_in, dataset_unchanged_in, dataset_with_id, datasets_added, datasets_modified, datasets_removed, datasets_unchanged, has_dataset};
use crate::diff::{BlueprintDiff, SledState, patched_after_state, sleds_after, sleds_before, state_at};
use crate::datasets::{BpDiffDatasets, DiffDatasetsDetails, dataset_generation_after, dataset_generation_before, BlueprintDatasetsConfig, BlueprintOrCollectionDatasetsConfig, datasets_after_of, datasets_after_wf, datasets_before_of, datasets_before_wf};
use crate::disks::{BlueprintOrCollectionDisksConfig, BlueprintPhysicalDisksConfig, BpDiffPhysicalDisks, DiffPhysicalDisksDetails, disk_generation_after, disk_generation_before, disks_after_of, disks_before_of};
use crate::order::{ascending_by, keys_distinct, lemma_filter_all, lemma_filter_ascending, lemma_multiset_keys_distinct};
use crate::sled_map::{SledMap, SledUuid};
use crate::disks::{DiskIdentity, disk_in, disk_not_in, disks_added, disks_removed, disks_unchanged, has_disk};
use crate::zones::{BpDiffZoneDetails, BpDiffZoneError, BpDiffZones, errors_match, zone_ordered_of, zone_generation_after, zone_generation_before, BlueprintOrCollectionZonesConfig, BlueprintZonesConfig, zones_after_of, zones_after_wf, zones_before_of, zones_before_wf, same_structure, kind_report, mismatch_reason, BlueprintZoneConfig, ModifiedZone, OmicronZoneUuid, errored_in, has_zone, missing_from, modified_in, unchanged_in, zone_ids_distinct, zone_with_id, zones_added, zones_errored, zones_modified, zones_removed, zones_unchanged};

verus! {

broadcast use vstd::seq_lib::group_filter_ensures;

/// The ids of a filtered zone list are those of the zones of the list that pass.
proof fn lemma_filter_has_zone(s: Seq<BlueprintZoneConfig>, p: spec_fn(BlueprintZoneConfig) -> bool, id: OmicronZoneUuid)
    requires
        zone_ids_distinct(s),
    ensures
        has_zone(s.filter(p), id) <==> (has_zone(s, id) && p(zone_with_id(s, id))),
{
    let f = s.filter(p);
    if has_zone(f, id) {
        let i = choose|i: int| 0 <= i < f.len() && #[trigger] f[i].id == id;
        assert(f.contains(f[i]));
        s.lemma_filter_contains_rev(p, f[i]);
        let j = choose|j: int| 0 <= j < s.len() && s[j] == f[i];
        assert(s[j].id == id);
        assert(has_zone(s, id));
        assert(zone_with_id(s, id) == s[j]);
    }
    if has_zone(s, id) && p(zone_with_id(s, id)) {
        let j = choose|j: int| 0 <= j < s.len() && #[trigger] s[j].id == id;
        assert(zone_with_id(s, id) == s[j]);
        s.lemma_filter_contains(p, j);
        let i = choose|i: int| 0 <= i < f.len() && f[i] == s[j];
        assert(f[i].id == id);
    }
}

/// The modified zones hold a zone with the given id.
pub open spec fn has_modified_zone(s: Seq<ModifiedZone>, id: OmicronZoneUuid) -> bool {
    exists|i: int| 0 <= i < s.len() && #[trigger] s[i].zone.id == id
}

/// Which buckets of the zone diff of `bs` (earlier) and `az` (later) hold `id`, as a
/// count.
pub open spec fn zone_bucket_count(bs: Seq<BlueprintZoneConfig>, az: Seq<BlueprintZoneConfig>, id: OmicronZoneUuid) -> int {
    (if has_zone(zones_unchanged(bs, az), id) { 1int } else { 0int }) + (if has_zone(zones_removed(bs, az), id) { 1int } else { 0int })
        + (if has_zone(zones_added(bs, az), id) { 1int } else { 0int }) + (if has_modified_zone(zones_modified(bs, az), id) { 1int } else { 0int })
        + (if has_zone(zones_errored(bs, az), id) { 1int } else { 0int })
}

/// Partition of zones: on one sled, every zone id of either snapshot lies in exactly
/// one of the buckets unchanged, removed, added, modified and errored (modified and
/// errored zones counted by their earlier id), and no other id lies in any.
pub proof fn zone_buckets_partition(bs: Seq<BlueprintZoneConfig>, az: Seq<BlueprintZoneConfig>, id: OmicronZoneUuid)
    requires
        zone_ids_distinct(bs),
        zone_ids_distinct(az),
    ensures
        zone_bucket_count(bs, az, id) == if has_zone(bs, id) || has_zone(az, id) { 1int } else { 0int },
{
    lemma_filter_has_zone(bs, unchanged_in(az), id);
    lemma_filter_has_zone(bs, modified_in(az), id);
    lemma_filter_has_zone(bs, errored_in(az), id);
    lemma_filter_has_zone(bs, missing_from(az), id);
    lemma_filter_has_zone(az, missing_from(bs), id);
    let fu = bs.filter(unchanged_in(az));
    let u = zones_unchanged(bs, az);
    assert(has_zone(u, id) == has_zone(fu, id)) by {
        if has_zone(u, id) {
            let i = choose|i: int| 0 <= i < u.len() && #[trigger] u[i].id == id;
            assert(unchanged_in(az)(fu[i]));
            assert(fu[i].id == id);
        }
        if has_zone(fu, id) {
            let i = choose|i: int| 0 <= i < fu.len() && #[trigger] fu[i].id == id;
            assert(unchanged_in(az)(fu[i]));
            assert(u[i].id == id);
        }
    }
    let fm = bs.filter(modified_in(az));
    let m = zones_modified(bs, az);
    assert(has_modified_zone(m, id) == has_zone(fm, id)) by {
        if has_modified_zone(m, id) {
            let i = choose|i: int| 0 <= i < m.len() && #[trigger] m[i].zone.id == id;
            assert(modified_in(az)(fm[i]));
            assert(fm[i].id == id);
        }
        if has_zone(fm, id) {
            let i = choose|i: int| 0 <= i < fm.len() && #[trigger] fm[i].id == id;
            assert(modified_in(az)(fm[i]));
            assert(m[i].zone.id == id);
        }
    }
    if has_zone(bs, id) && has_zone(az, id) {
        let b = zone_with_id(bs, id);
        let j = choose|j: int| 0 <= j < bs.len() && #[trigger] bs[j].id == id;
        assert(b.id == id);
    }
}

/// A filtered disk list holds the identities of the list that pass, where passing
/// depends on the identity alone.
proof fn lemma_filter_has_disk(s: Seq<DiskIdentity>, other: Seq<DiskIdentity>, keep_present: bool, d: DiskIdentity)
    ensures
        has_disk(s.filter(if keep_present { disk_in(other) } else { disk_not_in(other) }), d)
            <==> (has_disk(s, d) && has_disk(other, d) == keep_present),
{
    let p = if keep_present {
        disk_in(other)
    } else {
        disk_not_in(other)
    };
    let f = s.filter(p);
    if has_disk(f, d) {
        let i = choose|i: int| 0 <= i < f.len() && #[trigger] f[i]@ == d@;
        assert(f.contains(f[i]));
        s.lemma_filter_contains_rev(p, f[i]);
        let j = choose|j: int| 0 <= j < s.len() && s[j] == f[i];
        assert(s[j]@ == d@);
        assert(has_disk(other, f[i]) == has_disk(other, d));
    }
    if has_disk(s, d) && has_disk(other, d) == keep_present {
        let j = choose|j: int| 0 <= j < s.len() && #[trigger] s[j]@ == d@;
        assert(has_disk(other, s[j]) == has_disk(other, d));
        s.lemma_filter_contains(p, j);
        let i = choose|i: int| 0 <= i < f.len() && f[i] == s[j];
        assert(f[i]@ == d@);
    }
}

/// Set semantics of disks: on one sled, the added disks are the later ones that the
/// earlier list lacks, the removed disks the earlier ones that the later list lacks,
/// and the unchanged disks those of both, by full identity; so the three are pairwise
/// disjoint and together hold every disk of either list.
pub proof fn disk_buckets_are_set_differences(bs: Seq<DiskIdentity>, az: Seq<DiskIdentity>, d: DiskIdentity)
    ensures
        has_disk(disks_added(bs, az), d) <==> (has_disk(az, d) && !has_disk(bs, d)),
        has_disk(disks_removed(bs, az), d) <==> (has_disk(bs, d) && !has_disk(az, d)),
        has_disk(disks_unchanged(bs, az), d) <==> (has_disk(az, d) && has_disk(bs, d)),
        (if has_disk(disks_added(bs, az), d) { 1int } else { 0int }) + (if has_disk(disks_removed(bs, az), d) { 1int } else { 0int })
            + (if has_disk(disks_unchanged(bs, az), d) { 1int } else { 0int })
            == if has_disk(bs, d) || has_disk(az, d) { 1int } else { 0int },
{
    lemma_filter_has_disk(az, bs, false, d);
    lemma_filter_has_disk(bs, az, false, d);
    lemma_filter_has_disk(az, bs, true, d);
}

/// The ids of a filtered dataset list are those of the datasets of the list that pass.
proof fn lemma_filter_has_dataset(s: Seq<BlueprintDatasetConfigForDiff>, p: spec_fn(BlueprintDatasetConfigForDiff) -> bool, id: DatasetUuid)
    requires
        dataset_ids_distinct(s),
    ensures
        has_dataset(s.filter(p), id) <==> (has_dataset(s, id) && p(dataset_with_id(s, id))),
{
    let f = s.filter(p);
    if has_dataset(f, id) {
        let i = choose|i: int| 0 <= i < f.len() && #[trigger] f[i].id == id;
        assert(f.contains(f[i]));
        s.lemma_filter_contains_rev(p, f[i]);
        let j = choose|j: int| 0 <= j < s.len() && s[j] == f[i];
        assert(s[j].id == id);
        assert(has_dataset(s, id));
        assert(dataset_with_id(s, id) == s[j]);
    }
    if has_dataset(s, id) && p(dataset_with_id(s, id)) {
        let j = choose|j: int| 0 <= j < s.len() && #[trigger] s[j].id == id;
        assert(dataset_with_id(s, id) == s[j]);
        s.lemma_filter_contains(p, j);
        let i = choose|i: int| 0 <= i < f.len() && f[i] == s[j];
        assert(f[i].id == id);
    }
}

/// The modified datasets hold a dataset with the given id.
pub open spec fn has_modified_dataset(s: Seq<ModifiedDataset>, id: DatasetUuid) -> bool {
    exists|i: int| 0 <= i < s.len() && #[trigger] s[i].before.id == id
}

/// Which buckets of the dataset diff of `bs` (earlier) and `az` (later) hold `id`, as
/// a count.
pub open spec fn dataset_bucket_count(bs: Seq<BlueprintDatasetConfigForDiff>, az: Seq<BlueprintDatasetConfigForDiff>, id: DatasetUuid) -> int {
    (if has_dataset(datasets_unchanged(bs, az), id) { 1int } else { 0int }) + (if has_dataset(datasets_removed(bs, az), id) { 1int } else { 0int })
        + (if has_dataset(datasets_added(bs, az), id) { 1int } else { 0int }) + (if has_modified_dataset(datasets_modified(bs, az), id) { 1int } else { 0int })
}

/// Partition of datasets: on one sled, every dataset id of either snapshot lies in
/// exactly one of the buckets unchanged, removed, added and modified, and no other id
/// lies in any.
pub proof fn dataset_buckets_partition(bs: Seq<BlueprintDatasetConfigForDiff>, az: Seq<BlueprintDatasetConfigForDiff>, id: DatasetUuid)
    requires
        dataset_ids_distinct(bs),
        dataset_ids_distinct(az),
    ensures
        dataset_bucket_count(bs, az, id) == if has_dataset(bs, id) || has_dataset(az, id) { 1int } else { 0int },
{
    lemma_filter_has_dataset(bs, dataset_unchanged_in(az), id);
    lemma_filter_has_dataset(bs, dataset_modified_in(az), id);
    lemma_filter_has_dataset(bs, dataset_missing_from(az), id);
    lemma_filter_has_dataset(az, dataset_missing_from(bs), id);
    let fu = bs.filter(dataset_unchanged_in(az));
    let u = datasets_unchanged(bs, az);
    assert(has_dataset(u, id) == has_dataset(fu, id)) by {
        if has_dataset(u, id) {
            let i = choose|i: int| 0 <= i < u.len() && #[trigger] u[i].id == id;
            assert(dataset_unchanged_in(az)(fu[i]));
            assert(fu[i].id == id);
        }
        if has_dataset(fu, id) {
            let i = choose|i: int| 0 <= i < fu.len() && #[trigger] fu[i].id == id;
            assert(dataset_unchanged_in(az)(fu[i]));
            assert(u[i].id == id);
        }
    }
    let fm = bs.filter(dataset_modified_in(az));
    let m = datasets_modified(bs, az);
    assert(has_modified_dataset(m, id) == has_dataset(fm, id)) by {
        if has_modified_dataset(m, id) {
            let i = choose|i: int| 0 <= i < m.len() && #[trigger] m[i].before.id == id;
            assert(fm[i].id == id);
        }
        if has_dataset(fm, id) {
            let i = choose|i: int| 0 <= i < fm.len() && #[trigger] fm[i].id == id;
            assert(m[i].before.id == id);
        }
    }
    if has_dataset(bs, id) && has_dataset(az, id) {
        let j = choose|j: int| 0 <= j < bs.len() && #[trigger] bs[j].id == id;
        assert(dataset_with_id(bs, id).id == id);
    }
}

/// The zone modification gate: of two records with one id that agree on kind,
/// underlay IP and zone type but not on disposition, the zone is modified and not
/// errored; where only the kinds differ, it is errored, and the reason names both
/// kinds.
pub proof fn zone_modification_gate(bs: Seq<BlueprintZoneConfig>, az: Seq<BlueprintZoneConfig>, i: int, j: int)
    requires
        zone_ids_distinct(bs),
        zone_ids_distinct(az),
        0 <= i < bs.len(),
        0 <= j < az.len(),
        bs[i].id == az[j].id,
    ensures
        same_structure(bs[i], az[j]) && bs[i].disposition != az[j].disposition ==> has_modified_zone(
            zones_modified(bs, az),
            bs[i].id,
        ) && !has_zone(zones_errored(bs, az), bs[i].id),
        bs[i].kind != az[j].kind && bs[i].underlay_ip == az[j].underlay_ip && bs[i].zone_type@
            == az[j].zone_type@ ==> has_zone(zones_errored(bs, az), bs[i].id) && !has_modified_zone(
            zones_modified(bs, az),
            bs[i].id,
        ) && mismatch_reason(bs[i], az[j]) == "mismatched zone kind: before: "@ + kind_report(
            bs[i].kind,
        ) + ", after: "@ + kind_report(az[j].kind) + "\n"@,
{
    let id = bs[i].id;
    zone_buckets_partition(bs, az, id);
    lemma_filter_has_zone(bs, modified_in(az), id);
    lemma_filter_has_zone(bs, errored_in(az), id);
    assert(has_zone(bs, id));
    assert(has_zone(az, id));
    assert(zone_with_id(bs, id) == bs[i]);
    assert(zone_with_id(az, id) == az[j]);
    let fm = bs.filter(modified_in(az));
    let m = zones_modified(bs, az);
    if has_zone(fm, id) {
        let k = choose|k: int| 0 <= k < fm.len() && #[trigger] fm[k].id == id;
        assert(modified_in(az)(fm[k]));
        assert(m[k].zone.id == id);
    }
    if has_modified_zone(m, id) {
        let k = choose|k: int| 0 <= k < m.len() && #[trigger] m[k].zone.id == id;
        assert(modified_in(az)(fm[k]));
        assert(fm[k].id == id);
    }
    let e = Seq::<char>::empty();
    assert(("mismatched zone kind: before: "@ + kind_report(bs[i].kind) + ", after: "@ + kind_report(az[j].kind) + "\n"@) + e + e
        =~= "mismatched zone kind: before: "@ + kind_report(bs[i].kind) + ", after: "@ + kind_report(az[j].kind) + "\n"@);
}

/// Totality of the sled classification: every sled that either snapshot mentions is
/// in exactly one of the lists added, removed, modified and unchanged, and no other
/// sled is in any.
pub proof fn sled_classification_total(
    r: BlueprintDiff,
    before_state: SledMap<SledState>,
    before_zones: SledMap<BlueprintOrCollectionZonesConfig>,
    before_disks: SledMap<BlueprintOrCollectionDisksConfig>,
    before_datasets: SledMap<BlueprintOrCollectionDatasetsConfig>,
    after_state: SledMap<SledState>,
    after_zones: SledMap<BlueprintZonesConfig>,
    after_disks: SledMap<BlueprintPhysicalDisksConfig>,
    after_datasets: SledMap<BlueprintDatasetsConfig>,
    k: SledUuid,
)
    requires
        r.is_diff_of(
            before_state,
            before_zones,
            before_disks,
            before_datasets,
            after_state,
            after_zones,
            after_disks,
            after_datasets,
        ),
    ensures
        (if r.sleds_added@.contains(k) { 1int } else { 0int }) + (if r.sleds_removed@.contains(k) { 1int } else { 0int })
            + (if r.sleds_modified@.contains(k) { 1int } else { 0int }) + (if r.sleds_unchanged@.contains(k) { 1int } else { 0int })
            == if sleds_before(before_state, before_zones, before_disks, before_datasets).contains(k)
            || sleds_after(after_state@, after_zones, after_disks, after_datasets).contains(k) {
            1int
        } else {
            0int
        },
{
    let aset = sleds_after(r.after_state@, after_zones, after_disks, after_datasets);
    assert(aset.contains(k) == sleds_after(after_state@, after_zones, after_disks, after_datasets).contains(k));
    assert(r.sleds_added@.contains(k) == (aset.contains(k) && !sleds_before(before_state, before_zones, before_disks, before_datasets).contains(k)));
    assert(r.sleds_removed@.contains(k) == (!aset.contains(k) && sleds_before(before_state, before_zones, before_disks, before_datasets).contains(k)));
    assert(r.sleds_modified@.contains(k) == (aset.contains(k) && sleds_before(before_state, before_zones, before_disks, before_datasets).contains(k) && r.sled_changed(k)));
    assert(r.sleds_unchanged@.contains(k) == (aset.contains(k) && sleds_before(before_state, before_zones, before_disks, before_datasets).contains(k) && !r.sled_changed(k)));
}

/// The decommissioning patch: a sled that was decommissioned, that the later states
/// lack, but that the later zones still hold, is decommissioned in the later states
/// too, and is neither removed nor added.
pub proof fn decommissioned_sled_stays(
    r: BlueprintDiff,
    before_state: SledMap<SledState>,
    before_zones: SledMap<BlueprintOrCollectionZonesConfig>,
    before_disks: SledMap<BlueprintOrCollectionDisksConfig>,
    before_datasets: SledMap<BlueprintOrCollectionDatasetsConfig>,
    after_state: SledMap<SledState>,
    after_zones: SledMap<BlueprintZonesConfig>,
    after_disks: SledMap<BlueprintPhysicalDisksConfig>,
    after_datasets: SledMap<BlueprintDatasetsConfig>,
    h: SledUuid,
)
    requires
        r.is_diff_of(
            before_state,
            before_zones,
            before_disks,
            before_datasets,
            after_state,
            after_zones,
            after_disks,
            after_datasets,
        ),
        before_state@.contains_key(h),
        before_state@[h] == SledState::Decommissioned,
        !after_state@.contains_key(h),
        after_zones@.contains_key(h),
        after_zones@[h].zones@.len() > 0,
    ensures
        r.after_state@.contains_key(h),
        r.after_state@[h] == SledState::Decommissioned,
        !r.sleds_removed@.contains(h),
        !r.sleds_added@.contains(h),
{
    assert(sleds_before(before_state, before_zones, before_disks, before_datasets).contains(h));
    assert(sleds_after(r.after_state@, after_zones, after_disks, after_datasets).contains(h));
}

/// A zone list diffed against itself has no added, removed, modified or errored zones.
proof fn lemma_zones_self_diff(s: Seq<BlueprintZoneConfig>)
    requires
        zone_ids_distinct(s),
    ensures
        zones_added(s, s).len() == 0,
        zones_removed(s, s).len() == 0,
        zones_modified(s, s).len() == 0,
        zones_errored(s, s).len() == 0,
{
    assert forall|x: BlueprintZoneConfig| #[trigger] s.contains(x) implies has_zone(s, x.id) && zone_with_id(s, x.id) == x by {
        let j = choose|j: int| 0 <= j < s.len() && s[j] == x;
        assert(s[j].id == x.id);
    }
    let preds = seq![missing_from(s), modified_in(s), errored_in(s)];
    assert forall|n: int| 0 <= n < 3 implies #[trigger] s.filter(preds[n]).len() == 0 by {
        let p = preds[n];
        let f = s.filter(p);
        if f.len() > 0 {
            assert(p(f[0]));
            assert(f.contains(f[0]));
            s.lemma_filter_contains_rev(p, f[0]);
        }
    }
    assert(s.filter(preds[0]).len() == 0);
    assert(s.filter(preds[1]).len() == 0);
    assert(s.filter(preds[2]).len() == 0);
}

/// A disk list diffed against itself has no added or removed disks.
proof fn lemma_disks_self_diff(s: Seq<DiskIdentity>)
    ensures
        disks_added(s, s).len() == 0,
        disks_removed(s, s).len() == 0,
{
    let p = disk_not_in(s);
    let f = s.filter(p);
    if f.len() > 0 {
        assert(p(f[0]));
        assert(f.contains(f[0]));
        s.lemma_filter_contains_rev(p, f[0]);
        let j = choose|j: int| 0 <= j < s.len() && s[j] == f[0];
        assert(s[j]@ == f[0]@);
    }
}

/// A dataset list diffed against itself has no added, removed or modified datasets.
proof fn lemma_datasets_self_diff(s: Seq<BlueprintDatasetConfigForDiff>)
    requires
        dataset_ids_distinct(s),
    ensures
        datasets_added(s, s).len() == 0,
        datasets_removed(s, s).len() == 0,
        datasets_modified(s, s).len() == 0,
{
    assert forall|x: BlueprintDatasetConfigForDiff| #[trigger] s.contains(x) implies has_dataset(s, x.id) && dataset_with_id(s, x.id) == x by {
        let j = choose|j: int| 0 <= j < s.len() && s[j] == x;
        assert(s[j].id == x.id);
    }
    let preds = seq![dataset_missing_from(s), dataset_modified_in(s)];
    assert forall|n: int| 0 <= n < 2 implies #[trigger] s.filter(preds[n]).len() == 0 by {
        let p = preds[n];
        let f = s.filter(p);
        if f.len() > 0 {
            assert(p(f[0]));
            assert(f.contains(f[0]));
            s.lemma_filter_contains_rev(p, f[0]);
        }
    }
    assert(s.filter(preds[0]).len() == 0);
    assert(s.filter(preds[1]).len() == 0);
}

/// The later snapshot is an identical copy of the earlier one: the same sleds, states,
/// zones, disks and datasets.
pub open spec fn same_snapshot(
    before_state: SledMap<SledState>,
    before_zones: SledMap<BlueprintOrCollectionZonesConfig>,
    before_disks: SledMap<BlueprintOrCollectionDisksConfig>,
    before_datasets: SledMap<BlueprintOrCollectionDatasetsConfig>,
    after_state: SledMap<SledState>,
    after_zones: SledMap<BlueprintZonesConfig>,
    after_disks: SledMap<BlueprintPhysicalDisksConfig>,
    after_datasets: SledMap<BlueprintDatasetsConfig>,
) -> bool {
    &&& before_state@ == after_state@
    &&& before_zones@.dom() == after_zones@.dom()
    &&& before_disks@.dom() == after_disks@.dom()
    &&& before_datasets@.dom() == after_datasets@.dom()
    &&& forall|k: SledUuid| #[trigger] zones_before_of(before_zones, k) == zones_after_of(after_zones, k)
    &&& forall|k: SledUuid| #[trigger] disks_before_of(before_disks, k) == disks_after_of(after_disks, k)
    &&& forall|k: SledUuid| #[trigger] datasets_before_of(before_datasets, k) == datasets_after_of(after_datasets, k)
}

/// Idempotence: the diff of a snapshot and an identical copy of it has no added,
/// removed, modified or errored entries on any sled, no added, removed or modified
/// sleds, and every sled of the snapshot is unchanged.
pub proof fn self_diff_is_empty(
    r: BlueprintDiff,
    before_state: SledMap<SledState>,
    before_zones: SledMap<BlueprintOrCollectionZonesConfig>,
    before_disks: SledMap<BlueprintOrCollectionDisksConfig>,
    before_datasets: SledMap<BlueprintOrCollectionDatasetsConfig>,
    after_state: SledMap<SledState>,
    after_zones: SledMap<BlueprintZonesConfig>,
    after_disks: SledMap<BlueprintPhysicalDisksConfig>,
    after_datasets: SledMap<BlueprintDatasetsConfig>,
)
    requires
        zones_before_wf(before_zones),
        datasets_before_wf(before_datasets),
        zones_after_wf(after_zones),
        datasets_after_wf(after_datasets),
        same_snapshot(
            before_state,
            before_zones,
            before_disks,
            before_datasets,
            after_state,
            after_zones,
            after_disks,
            after_datasets,
        ),
        r.is_diff_of(
            before_state,
            before_zones,
            before_disks,
            before_datasets,
            after_state,
            after_zones,
            after_disks,
            after_datasets,
        ),
    ensures
        forall|k: SledUuid| !r.sled_changed(k),
        r.sleds_added@.len() == 0,
        r.sleds_removed@.len() == 0,
        r.sleds_modified@.len() == 0,
        forall|k: SledUuid| #[trigger]
            sleds_before(before_state, before_zones, before_disks, before_datasets).contains(k)
                ==> r.sleds_unchanged@.contains(k),
{
    assert(r.after_state@ =~= after_state@);
    let bset = sleds_before(before_state, before_zones, before_disks, before_datasets);
    let aset = sleds_after(r.after_state@, after_zones, after_disks, after_datasets);
    assert(bset =~= aset);
    assert forall|k: SledUuid| !r.sled_changed(k) by {
        let zs = zones_before_of(before_zones, k);
        assert(zs == zones_after_of(after_zones, k));
        if before_zones@.contains_key(k) {
            lemma_zones_self_diff(zs);
        } else {
            lemma_zones_self_diff(Seq::empty());
        }
        let ds = disks_before_of(before_disks, k);
        assert(ds == disks_after_of(after_disks, k));
        lemma_disks_self_diff(ds);
        let ts = datasets_before_of(before_datasets, k);
        assert(ts == datasets_after_of(after_datasets, k));
        if before_datasets@.contains_key(k) {
            lemma_datasets_self_diff(ts);
        } else {
            lemma_datasets_self_diff(Seq::empty());
        }
        assert(r.zones.sled_is(k, zs, zones_after_of(after_zones, k), crate::zones::zone_generation_before(before_zones, k), crate::zones::zone_generation_after(after_zones, k)));
        assert(r.physical_disks.sled_is(k, ds, disks_after_of(after_disks, k), crate::disks::disk_generation_before(before_disks, k), crate::disks::disk_generation_after(after_disks, k), crate::disks::disks_only_before(before_disks, after_disks, k)));
        assert(r.datasets.sled_is(k, ts, datasets_after_of(after_datasets, k), crate::datasets::dataset_generation_before(before_datasets, k), crate::datasets::dataset_generation_after(after_datasets, k), crate::datasets::datasets_only_before(before_datasets, after_datasets, k)));
        assert(state_at(r.before_state@, k) == state_at(r.after_state@, k));
    }
    if r.sleds_added@.len() > 0 {
        assert(r.sleds_added@.contains(r.sleds_added@[0]));
    }
    if r.sleds_removed@.len() > 0 {
        assert(r.sleds_removed@.contains(r.sleds_removed@[0]));
    }
    if r.sleds_modified@.len() > 0 {
        assert(r.sleds_modified@.contains(r.sleds_modified@[0]));
    }
}

/// Membership by id carries over between two zone lists with the same records.
proof fn lemma_same_records_same_ids(out: Seq<BlueprintZoneConfig>, expected: Seq<BlueprintZoneConfig>, id: OmicronZoneUuid)
    requires
        out.to_multiset() == expected.to_multiset(),
    ensures
        has_zone(out, id) == has_zone(expected, id),
{
    if has_zone(out, id) {
        let i = choose|i: int| 0 <= i < out.len() && #[trigger] out[i].id == id;
        vstd::seq_lib::to_multiset_contains(out, out[i]);
        vstd::seq_lib::to_multiset_contains(expected, out[i]);
        let j = choose|j: int| 0 <= j < expected.len() && expected[j] == out[i];
        assert(expected[j].id == id);
    }
    if has_zone(expected, id) {
        let i = choose|i: int| 0 <= i < expected.len() && #[trigger] expected[i].id == id;
        vstd::seq_lib::to_multiset_contains(out, expected[i]);
        vstd::seq_lib::to_multiset_contains(expected, expected[i]);
        let j = choose|j: int| 0 <= j < out.len() && out[j] == expected[i];
        assert(out[j].id == id);
    }
}

/// Membership by id carries over between two lists of modified zones with the same
/// records.
proof fn lemma_same_modified_same_ids(out: Seq<ModifiedZone>, expected: Seq<ModifiedZone>, id: OmicronZoneUuid)
    requires
        out.to_multiset() == expected.to_multiset(),
    ensures
        has_modified_zone(out, id) == has_modified_zone(expected, id),
{
    if has_modified_zone(out, id) {
        let i = choose|i: int| 0 <= i < out.len() && #[trigger] out[i].zone.id == id;
        vstd::seq_lib::to_multiset_contains(out, out[i]);
        vstd::seq_lib::to_multiset_contains(expected, out[i]);
        let j = choose|j: int| 0 <= j < expected.len() && expected[j] == out[i];
        assert(expected[j].zone.id == id);
    }
    if has_modified_zone(expected, id) {
        let i = choose|i: int| 0 <= i < expected.len() && #[trigger] expected[i].zone.id == id;
        vstd::seq_lib::to_multiset_contains(out, expected[i]);
        vstd::seq_lib::to_multiset_contains(expected, expected[i]);
        let j = choose|j: int| 0 <= j < out.len() && out[j] == expected[i];
        assert(out[j].zone.id == id);
    }
}

/// The zones that a bucket of the zone diff holds for sled `k` (none where the bucket
/// lacks the sled).
pub open spec fn bucket_zones(m: SledMap<BpDiffZoneDetails>, k: SledUuid) -> Seq<BlueprintZoneConfig> {
    if m@.contains_key(k) {
        m@[k].zones@
    } else {
        Seq::empty()
    }
}

pub open spec fn bucket_modified(r: BpDiffZones, k: SledUuid) -> Seq<ModifiedZone> {
    if r.modified@.contains_key(k) {
        r.modified@[k].zones@
    } else {
        Seq::empty()
    }
}

pub open spec fn bucket_errors(r: BpDiffZones, k: SledUuid) -> Seq<BpDiffZoneError> {
    if r.errors@.contains_key(k) {
        r.errors@[k].errors@
    } else {
        Seq::empty()
    }
}

/// The errors hold a zone with the given earlier id.
pub open spec fn has_zone_error(s: Seq<BpDiffZoneError>, id: OmicronZoneUuid) -> bool {
    exists|i: int| 0 <= i < s.len() && #[trigger] s[i].zone_before.id == id
}

/// Which buckets of the zone diff hold `id` on sled `k` is what the spec lists say.
proof fn lemma_zone_bucket_ids(
    r: BpDiffZones,
    before: SledMap<BlueprintOrCollectionZonesConfig>,
    after: SledMap<BlueprintZonesConfig>,
    k: SledUuid,
    id: OmicronZoneUuid,
)
    requires
        r.is_diff_of(before, after),
    ensures
        has_zone(bucket_zones(r.unchanged, k), id) == has_zone(zones_unchanged(zones_before_of(before, k), zones_after_of(after, k)), id),
        has_zone(bucket_zones(r.removed, k), id) == has_zone(zones_removed(zones_before_of(before, k), zones_after_of(after, k)), id),
        has_zone(bucket_zones(r.added, k), id) == has_zone(zones_added(zones_before_of(before, k), zones_after_of(after, k)), id),
        has_modified_zone(bucket_modified(r, k), id) == has_modified_zone(zones_modified(zones_before_of(before, k), zones_after_of(after, k)), id),
        has_zone_error(bucket_errors(r, k), id) == has_zone(zones_errored(zones_before_of(before, k), zones_after_of(after, k)), id),
{
    let bs = zones_before_of(before, k);
    let az = zones_after_of(after, k);
    assert(r.sled_is(k, bs, az, zone_generation_before(before, k), zone_generation_after(after, k)));
    if r.unchanged@.contains_key(k) {
        lemma_same_records_same_ids(r.unchanged@[k].zones@, zones_unchanged(bs, az), id);
    } else {
        assert(zones_unchanged(bs, az).len() == 0);
    }
    if r.removed@.contains_key(k) {
        lemma_same_records_same_ids(r.removed@[k].zones@, zones_removed(bs, az), id);
    } else {
        assert(zones_removed(bs, az).len() == 0);
    }
    if r.added@.contains_key(k) {
        lemma_same_records_same_ids(r.added@[k].zones@, zones_added(bs, az), id);
    } else {
        assert(zones_added(bs, az).len() == 0);
    }
    if r.modified@.contains_key(k) {
        lemma_same_modified_same_ids(r.modified@[k].zones@, zones_modified(bs, az), id);
    } else {
        assert(zones_modified(bs, az).len() == 0);
    }
    if r.errors@.contains_key(k) {
        let errs = r.errors@[k].errors@;
        let bad = choose|bad: Seq<BlueprintZoneConfig>|
            #[trigger] zone_ordered_of(bad, zones_errored(bs, az)) && errors_match(errs, bad, az);
        lemma_same_records_same_ids(bad, zones_errored(bs, az), id);
        if has_zone_error(errs, id) {
            let i = choose|i: int| 0 <= i < errs.len() && #[trigger] errs[i].zone_before.id == id;
            assert(bad[i].id == id);
        }
        if has_zone(bad, id) {
            let i = choose|i: int| 0 <= i < bad.len() && #[trigger] bad[i].id == id;
            assert(errs[i].zone_before.id == id);
        }
    } else {
        assert(zones_errored(bs, az).len() == 0);
    }
}

/// Partition of zones, as the zone diff holds it: on every sled, every zone id of
/// either snapshot lies in exactly one of the unchanged, removed, added, modified and
/// errored buckets of the diff, and no other id lies in any.
pub proof fn zone_diff_partition(
    r: BpDiffZones,
    before: SledMap<BlueprintOrCollectionZonesConfig>,
    after: SledMap<BlueprintZonesConfig>,
    k: SledUuid,
    id: OmicronZoneUuid,
)
    requires
        zones_before_wf(before),
        zones_after_wf(after),
        r.is_diff_of(before, after),
    ensures
        (if has_zone(bucket_zones(r.unchanged, k), id) { 1int } else { 0int })
            + (if has_zone(bucket_zones(r.removed, k), id) { 1int } else { 0int })
            + (if has_zone(bucket_zones(r.added, k), id) { 1int } else { 0int })
            + (if has_modified_zone(bucket_modified(r, k), id) { 1int } else { 0int })
            + (if has_zone_error(bucket_errors(r, k), id) { 1int } else { 0int })
            == if has_zone(zones_before_of(before, k), id) || has_zone(zones_after_of(after, k), id) {
            1int
        } else {
            0int
        },
{
    lemma_zone_bucket_ids(r, before, after, k, id);
    zone_buckets_partition(zones_before_of(before, k), zones_after_of(after, k), id);
}

/// The zone buckets as sets of ids: on every sled, the added ids are the later ids
/// that the earlier snapshot lacks, the removed ids the earlier ids that the later
/// snapshot lacks, and the unchanged, modified and errored ids together the ids of both.
pub proof fn zone_diff_set_differences(
    r: BpDiffZones,
    before: SledMap<BlueprintOrCollectionZonesConfig>,
    after: SledMap<BlueprintZonesConfig>,
    k: SledUuid,
    id: OmicronZoneUuid,
)
    requires
        zones_before_wf(before),
        zones_after_wf(after),
        r.is_diff_of(before, after),
    ensures
        has_zone(bucket_zones(r.added, k), id) <==> (has_zone(zones_after_of(after, k), id) && !has_zone(zones_before_of(before, k), id)),
        has_zone(bucket_zones(r.removed, k), id) <==> (has_zone(zones_before_of(before, k), id) && !has_zone(zones_after_of(after, k), id)),
        (has_zone(bucket_zones(r.unchanged, k), id) || has_modified_zone(bucket_modified(r, k), id) || has_zone_error(bucket_errors(r, k), id))
            <==> (has_zone(zones_before_of(before, k), id) && has_zone(zones_after_of(after, k), id)),
{
    let bs = zones_before_of(before, k);
    let az = zones_after_of(after, k);
    lemma_zone_bucket_ids(r, before, after, k, id);
    zone_buckets_partition(bs, az, id);
    lemma_filter_has_zone(bs, missing_from(az), id);
    lemma_filter_has_zone(az, missing_from(bs), id);
    if has_zone(bs, id) {
        let j = choose|j: int| 0 <= j < bs.len() && #[trigger] bs[j].id == id;
        assert(zone_with_id(bs, id).id == id);
    }
    if has_zone(az, id) {
        let j = choose|j: int| 0 <= j < az.len() && #[trigger] az[j].id == id;
        assert(zone_with_id(az, id).id == id);
    }
}

pub open spec fn zone_id_of() -> spec_fn(BlueprintZoneConfig) -> OmicronZoneUuid {
    |z: BlueprintZoneConfig| z.id
}

pub open spec fn modified_zone_id_of() -> spec_fn(ModifiedZone) -> OmicronZoneUuid {
    |m: ModifiedZone| m.zone.id
}

pub open spec fn zone_error_id_of() -> spec_fn(BpDiffZoneError) -> OmicronZoneUuid {
    |e: BpDiffZoneError| e.zone_before.id
}

pub open spec fn ids_differ() -> spec_fn(BlueprintZoneConfig, BlueprintZoneConfig) -> bool {
    |a: BlueprintZoneConfig, b: BlueprintZoneConfig| a.id != b.id
}

/// A filter of a zone list with distinct ids has distinct ids.
proof fn lemma_filter_ids_distinct(s: Seq<BlueprintZoneConfig>, p: spec_fn(BlueprintZoneConfig) -> bool)
    requires
        zone_ids_distinct(s),
    ensures
        keys_distinct(s.filter(p), zone_id_of()),
{
    assert(ascending_by(s, ids_differ()));
    lemma_filter_ascending(s, p, ids_differ());
}

/// No zone id occurs twice in one bucket of the zone diff.
pub proof fn zone_buckets_hold_distinct_ids(
    r: BpDiffZones,
    before: SledMap<BlueprintOrCollectionZonesConfig>,
    after: SledMap<BlueprintZonesConfig>,
    k: SledUuid,
)
    requires
        zones_before_wf(before),
        zones_after_wf(after),
        r.is_diff_of(before, after),
    ensures
        keys_distinct(bucket_zones(r.unchanged, k), zone_id_of()),
        keys_distinct(bucket_zones(r.removed, k), zone_id_of()),
        keys_distinct(bucket_zones(r.added, k), zone_id_of()),
        keys_distinct(bucket_modified(r, k), modified_zone_id_of()),
        keys_distinct(bucket_errors(r, k), zone_error_id_of()),
{
    let bs = zones_before_of(before, k);
    let az = zones_after_of(after, k);
    assert(r.sled_is(k, bs, az, zone_generation_before(before, k), zone_generation_after(after, k)));
    assert(zone_ids_distinct(bs));
    assert(zone_ids_distinct(az));
    lemma_filter_ids_distinct(bs, missing_from(az));
    lemma_filter_ids_distinct(az, missing_from(bs));
    lemma_filter_ids_distinct(bs, errored_in(az));
    lemma_filter_ids_distinct(bs, unchanged_in(az));
    lemma_filter_ids_distinct(bs, modified_in(az));
    let fu = bs.filter(unchanged_in(az));
    let u = zones_unchanged(bs, az);
    assert forall|i: int| 0 <= i < u.len() implies #[trigger] u[i].id == fu[i].id by {
        assert(unchanged_in(az)(fu[i]));
    }
    assert(keys_distinct(u, zone_id_of())) by {
        assert forall|i: int, j: int| 0 <= i < j < u.len() implies u[i].id != u[j].id by {
            assert(fu[i].id != fu[j].id);
        }
    }
    let fm = bs.filter(modified_in(az));
    let m = zones_modified(bs, az);
    assert(keys_distinct(m, modified_zone_id_of())) by {
        assert forall|i: int, j: int| 0 <= i < j < m.len() implies m[i].zone.id != m[j].zone.id by {
            assert(modified_in(az)(fm[i]));
            assert(modified_in(az)(fm[j]));
            assert(fm[i].id != fm[j].id);
        }
    }
    if r.unchanged@.contains_key(k) {
        lemma_multiset_keys_distinct(r.unchanged@[k].zones@, u, zone_id_of());
    }
    if r.removed@.contains_key(k) {
        lemma_multiset_keys_distinct(r.removed@[k].zones@, zones_removed(bs, az), zone_id_of());
    }
    if r.added@.contains_key(k) {
        lemma_multiset_keys_distinct(r.added@[k].zones@, zones_added(bs, az), zone_id_of());
    }
    if r.modified@.contains_key(k) {
        lemma_multiset_keys_distinct(r.modified@[k].zones@, m, modified_zone_id_of());
    }
    if r.errors@.contains_key(k) {
        let errs = r.errors@[k].errors@;
        let bad = choose|bad: Seq<BlueprintZoneConfig>|
            #[trigger] zone_ordered_of(bad, zones_errored(bs, az)) && errors_match(errs, bad, az);
        lemma_multiset_keys_distinct(bad, zones_errored(bs, az), zone_id_of());
        assert forall|i: int, j: int| 0 <= i < j < errs.len() implies errs[i].zone_before.id != errs[j].zone_before.id by {
            assert(bad[i].id != bad[j].id);
        }
    }
}

/// The disks that a bucket of the disk diff holds for sled `k` (none where the bucket
/// lacks the sled).
pub open spec fn bucket_disks(m: SledMap<DiffPhysicalDisksDetails>, k: SledUuid) -> Seq<DiskIdentity> {
    if m@.contains_key(k) {
        m@[k].disks@
    } else {
        Seq::empty()
    }
}

/// Set semantics of disks, as the disk diff holds them: on every sled, the added disks
/// are the later ones that the earlier snapshot lacks, the removed disks the earlier
/// ones that the later snapshot lacks, and the unchanged disks those of both.
pub proof fn disk_diff_set_differences(
    r: BpDiffPhysicalDisks,
    before: SledMap<BlueprintOrCollectionDisksConfig>,
    after: SledMap<BlueprintPhysicalDisksConfig>,
    k: SledUuid,
    d: DiskIdentity,
)
    requires
        r.is_diff_of(before, after),
    ensures
        has_disk(bucket_disks(r.added, k), d) <==> (has_disk(disks_after_of(after, k), d) && !has_disk(disks_before_of(before, k), d)),
        has_disk(bucket_disks(r.removed, k), d) <==> (has_disk(disks_before_of(before, k), d) && !has_disk(disks_after_of(after, k), d)),
        has_disk(bucket_disks(r.unchanged, k), d) <==> (has_disk(disks_after_of(after, k), d) && has_disk(disks_before_of(before, k), d)),
{
    let bs = disks_before_of(before, k);
    let az = disks_after_of(after, k);
    assert(r.sled_is(k, bs, az, disk_generation_before(before, k), disk_generation_after(after, k), crate::disks::disks_only_before(before, after, k)));
    disk_buckets_are_set_differences(bs, az, d);
    if !r.added@.contains_key(k) {
        assert(disks_added(bs, az).len() == 0);
        assert(bucket_disks(r.added, k) =~= disks_added(bs, az));
    }
    if !r.removed@.contains_key(k) {
        assert(disks_removed(bs, az).len() == 0);
        assert(bucket_disks(r.removed, k) =~= disks_removed(bs, az));
    }
    if !r.unchanged@.contains_key(k) {
        assert(disks_unchanged(bs, az).len() == 0);
        assert(bucket_disks(r.unchanged, k) =~= disks_unchanged(bs, az));
    }
}

/// The datasets that a bucket of the dataset diff holds for sled `k` (none where the
/// bucket lacks the sled).
pub open spec fn bucket_datasets(m: SledMap<DiffDatasetsDetails>, k: SledUuid) -> Seq<BlueprintDatasetConfigForDiff> {
    if m@.contains_key(k) {
        m@[k].datasets@
    } else {
        Seq::empty()
    }
}

pub open spec fn bucket_modified_datasets(r: BpDiffDatasets, k: SledUuid) -> Seq<ModifiedDataset> {
    if r.modified@.contains_key(k) {
        r.modified@[k].datasets@
    } else {
        Seq::empty()
    }
}

/// Partition of datasets, as the dataset diff holds them: on every sled, every dataset
/// id of either snapshot lies in exactly one of the unchanged, removed, added and
/// modified buckets of the diff, and no other id lies in any.
pub proof fn dataset_diff_partition(
    r: BpDiffDatasets,
    before: SledMap<BlueprintOrCollectionDatasetsConfig>,
    after: SledMap<BlueprintDatasetsConfig>,
    k: SledUuid,
    id: DatasetUuid,
)
    requires
        datasets_before_wf(before),
        datasets_after_wf(after),
        r.is_diff_of(before, after),
    ensures
        (if has_dataset(bucket_datasets(r.unchanged, k), id) { 1int } else { 0int })
            + (if has_dataset(bucket_datasets(r.removed, k), id) { 1int } else { 0int })
            + (if has_dataset(bucket_datasets(r.added, k), id) { 1int } else { 0int })
            + (if has_modified_dataset(bucket_modified_datasets(r, k), id) { 1int } else { 0int })
            == if has_dataset(datasets_before_of(before, k), id) || has_dataset(datasets_after_of(after, k), id) {
            1int
        } else {
            0int
        },
{
    let bs = datasets_before_of(before, k);
    let az = datasets_after_of(after, k);
    assert(r.sled_is(k, bs, az, dataset_generation_before(before, k), dataset_generation_after(after, k), crate::datasets::datasets_only_before(before, after, k)));
    dataset_buckets_partition(bs, az, id);
    if !r.unchanged@.contains_key(k) {
        assert(datasets_unchanged(bs, az).len() == 0);
        assert(bucket_datasets(r.unchanged, k) =~= datasets_unchanged(bs, az));
    }
    if !r.removed@.contains_key(k) {
        assert(datasets_removed(bs, az).len() == 0);
        assert(bucket_datasets(r.removed, k) =~= datasets_removed(bs, az));
    }
    if !r.added@.contains_key(k) {
        assert(datasets_added(bs, az).len() == 0);
        assert(bucket_datasets(r.added, k) =~= datasets_added(bs, az));
    }
    if !r.modified@.contains_key(k) {
        assert(datasets_modified(bs, az).len() == 0);
        assert(bucket_modified_datasets(r, k) =~= datasets_modified(bs, az));
    }
}

/// The dataset buckets as sets of ids: on every sled, the added ids are the later ids
/// that the earlier snapshot lacks, the removed ids the earlier ids that the later
/// snapshot lacks, and the unchanged and modified ids together the ids of both.
pub proof fn dataset_diff_set_differences(
    r: BpDiffDatasets,
    before: SledMap<BlueprintOrCollectionDatasetsConfig>,
    after: SledMap<BlueprintDatasetsConfig>,
    k: SledUuid,
    id: DatasetUuid,
)
    requires
        datasets_before_wf(before),
        datasets_after_wf(after),
        r.is_diff_of(before, after),
    ensures
        has_dataset(bucket_datasets(r.added, k), id) <==> (has_dataset(datasets_after_of(after, k), id) && !has_dataset(datasets_before_of(before, k), id)),
        has_dataset(bucket_datasets(r.removed, k), id) <==> (has_dataset(datasets_before_of(before, k), id) && !has_dataset(datasets_after_of(after, k), id)),
        (has_dataset(bucket_datasets(r.unchanged, k), id) || has_modified_dataset(bucket_modified_datasets(r, k), id))
            <==> (has_dataset(datasets_before_of(before, k), id) && has_dataset(datasets_after_of(after, k), id)),
{
    let bs = datasets_before_of(before, k);
    let az = datasets_after_of(after, k);
    dataset_diff_partition(r, before, after, k, id);
    assert(r.sled_is(k, bs, az, dataset_generation_before(before, k), dataset_generation_after(after, k), crate::datasets::datasets_only_before(before, after, k)));
    assert(dataset_ids_distinct(bs));
    assert(dataset_ids_distinct(az));
    lemma_filter_has_dataset(bs, dataset_missing_from(az), id);
    lemma_filter_has_dataset(az, dataset_missing_from(bs), id);
    if !r.added@.contains_key(k) {
        assert(bucket_datasets(r.added, k) =~= datasets_added(bs, az));
    }
    if !r.removed@.contains_key(k) {
        assert(bucket_datasets(r.removed, k) =~= datasets_removed(bs, az));
    }
    if has_dataset(bs, id) {
        let j = choose|j: int| 0 <= j < bs.len() && #[trigger] bs[j].id == id;
        assert(dataset_with_id(bs, id).id == id);
    }
    if has_dataset(az, id) {
        let j = choose|j: int| 0 <= j < az.len() && #[trigger] az[j].id == id;
        assert(dataset_with_id(az, id).id == id);
    }
}

/// A zone list diffed against itself keeps every zone unchanged.
proof fn lemma_zones_self_unchanged(s: Seq<BlueprintZoneConfig>)
    requires
        zone_ids_distinct(s),
    ensures
        zones_unchanged(s, s) == s,
{
    assert forall|i: int| 0 <= i < s.len() implies #[trigger] unchanged_in(s)(s[i]) by {
        crate::zones::lemma_zone_with_id(s, i);
    }
    lemma_filter_all(s, unchanged_in(s));
    let f = s.filter(unchanged_in(s));
    assert(f == s);
    let u = zones_unchanged(s, s);
    assert(u.len() == s.len());
    assert forall|i: int| 0 <= i < s.len() implies #[trigger] u[i] == s[i] by {
        crate::zones::lemma_zone_with_id(s, i);
        assert(u[i] == zone_with_id(s, f[i].id));
    }
    assert(u =~= s);
}

/// Idempotence of the zone diff: zones diffed against an identical copy of themselves
/// have no added, removed, modified or errored zones on any sled, and every sled with
/// zones has them all unchanged.
pub proof fn zone_self_diff(r: BpDiffZones, before: SledMap<BlueprintOrCollectionZonesConfig>, after: SledMap<BlueprintZonesConfig>)
    requires
        zones_before_wf(before),
        zones_after_wf(after),
        before@.dom() == after@.dom(),
        forall|k: SledUuid| #[trigger] zones_before_of(before, k) == zones_after_of(after, k),
        r.is_diff_of(before, after),
    ensures
        forall|k: SledUuid| !(#[trigger] r.added@.contains_key(k)),
        forall|k: SledUuid| !(#[trigger] r.removed@.contains_key(k)),
        forall|k: SledUuid| !(#[trigger] r.modified@.contains_key(k)),
        forall|k: SledUuid| !(#[trigger] r.errors@.contains_key(k)),
        forall|k: SledUuid| #[trigger] after@.contains_key(k) && after@[k].zones@.len() > 0 ==> r.unchanged@.contains_key(k)
            && zone_ordered_of(r.unchanged@[k].zones@, after@[k].zones@),
{
    assert forall|k: SledUuid| {
        &&& !(#[trigger] r.added@.contains_key(k))
        &&& !r.removed@.contains_key(k)
        &&& !r.modified@.contains_key(k)
        &&& !r.errors@.contains_key(k)
        &&& (after@.contains_key(k) && after@[k].zones@.len() > 0 ==> r.unchanged@.contains_key(k)
            && zone_ordered_of(r.unchanged@[k].zones@, after@[k].zones@))
    } by {
        let zs = zones_after_of(after, k);
        assert(zones_before_of(before, k) == zs);
        assert(zone_ids_distinct(zs));
        lemma_zones_self_diff(zs);
        lemma_zones_self_unchanged(zs);
        assert(r.sled_is(k, zs, zs, zone_generation_before(before, k), zone_generation_after(after, k)));
    }
    assert forall|k: SledUuid| !(#[trigger] r.removed@.contains_key(k)) by {
        assert(!r.added@.contains_key(k) && !r.removed@.contains_key(k));
    }
    assert forall|k: SledUuid| !(#[trigger] r.modified@.contains_key(k)) by {
        assert(!r.added@.contains_key(k) && !r.modified@.contains_key(k));
    }
    assert forall|k: SledUuid| !(#[trigger] r.errors@.contains_key(k)) by {
        assert(!r.added@.contains_key(k) && !r.errors@.contains_key(k));
    }
    assert forall|k: SledUuid| #[trigger] after@.contains_key(k) && after@[k].zones@.len() > 0 implies r.unchanged@.contains_key(k)
            && zone_ordered_of(r.unchanged@[k].zones@, after@[k].zones@) by {
        assert(!r.added@.contains_key(k));
    }
}

/// Idempotence of the disk diff: disks diffed against an identical copy of themselves
/// have no added or removed disks on any sled, and every sled with disks has them all
/// unchanged.
pub proof fn disk_self_diff(r: BpDiffPhysicalDisks, before: SledMap<BlueprintOrCollectionDisksConfig>, after: SledMap<BlueprintPhysicalDisksConfig>)
    requires
        before@.dom() == after@.dom(),
        forall|k: SledUuid| #[trigger] disks_before_of(before, k) == disks_after_of(after, k),
        r.is_diff_of(before, after),
    ensures
        forall|k: SledUuid| !(#[trigger] r.added@.contains_key(k)),
        forall|k: SledUuid| !(#[trigger] r.removed@.contains_key(k)),
        forall|k: SledUuid| #[trigger] after@.contains_key(k) && after@[k].disks@.len() > 0 ==> r.unchanged@.contains_key(k)
            && r.unchanged@[k].disks@ == after@[k].disks@,
{
    assert forall|k: SledUuid| {
        &&& !(#[trigger] r.added@.contains_key(k))
        &&& !r.removed@.contains_key(k)
        &&& (after@.contains_key(k) && after@[k].disks@.len() > 0 ==> r.unchanged@.contains_key(k)
            && r.unchanged@[k].disks@ == after@[k].disks@)
    } by {
        let ds = disks_after_of(after, k);
        assert(disks_before_of(before, k) == ds);
        lemma_disks_self_diff(ds);
        assert forall|i: int| 0 <= i < ds.len() implies #[trigger] disk_in(ds)(ds[i]) by {
            assert(ds[i]@ == ds[i]@);
            assert(has_disk(ds, ds[i]));
        }
        lemma_filter_all(ds, disk_in(ds));
        assert(r.sled_is(k, ds, ds, disk_generation_before(before, k), disk_generation_after(after, k), crate::disks::disks_only_before(before, after, k)));
    }
    assert forall|k: SledUuid| !(#[trigger] r.removed@.contains_key(k)) by {
        assert(!r.added@.contains_key(k) && !r.removed@.contains_key(k));
    }
    assert forall|k: SledUuid| #[trigger] after@.contains_key(k) && after@[k].disks@.len() > 0 implies r.unchanged@.contains_key(k)
            && r.unchanged@[k].disks@ == after@[k].disks@ by {
        assert(!r.added@.contains_key(k));
    }
}

/// Where ids are distinct, the dataset at a position is the dataset with its id.
proof fn lemma_dataset_with_own_id(s: Seq<BlueprintDatasetConfigForDiff>, j: int)
    requires
        dataset_ids_distinct(s),
        0 <= j < s.len(),
    ensures
        has_dataset(s, s[j].id),
        dataset_with_id(s, s[j].id) == s[j],
{
    assert(has_dataset(s, s[j].id));
}

/// A dataset list diffed against itself keeps every dataset unchanged.
proof fn lemma_datasets_self_unchanged(s: Seq<BlueprintDatasetConfigForDiff>)
    requires
        dataset_ids_distinct(s),
    ensures
        datasets_unchanged(s, s) == s,
{
    assert forall|i: int| 0 <= i < s.len() implies #[trigger] dataset_unchanged_in(s)(s[i]) by {
        lemma_dataset_with_own_id(s, i);
    }
    lemma_filter_all(s, dataset_unchanged_in(s));
    let f = s.filter(dataset_unchanged_in(s));
    assert(f == s);
    let u = datasets_unchanged(s, s);
    assert(u.len() == s.len());
    assert forall|i: int| 0 <= i < s.len() implies #[trigger] u[i] == s[i] by {
        lemma_dataset_with_own_id(s, i);
        assert(u[i] == dataset_with_id(s, f[i].id));
    }
    assert(u =~= s);
}

/// Idempotence of the dataset diff: datasets diffed against an identical copy of
/// themselves have no added, removed or modified datasets on any sled, and every sled
/// with datasets has them all unchanged.
pub proof fn dataset_self_diff(r: BpDiffDatasets, before: SledMap<BlueprintOrCollectionDatasetsConfig>, after: SledMap<BlueprintDatasetsConfig>)
    requires
        datasets_before_wf(before),
        datasets_after_wf(after),
        before@.dom() == after@.dom(),
        forall|k: SledUuid| #[trigger] datasets_before_of(before, k) == datasets_after_of(after, k),
        r.is_diff_of(before, after),
    ensures
        forall|k: SledUuid| !(#[trigger] r.added@.contains_key(k)),
        forall|k: SledUuid| !(#[trigger] r.removed@.contains_key(k)),
        forall|k: SledUuid| !(#[trigger] r.modified@.contains_key(k)),
        forall|k: SledUuid| #[trigger] after@.contains_key(k) && after@[k].datasets@.len() > 0 ==> r.unchanged@.contains_key(k)
            && r.unchanged@[k].datasets@ == after@[k].datasets@,
{
    assert forall|k: SledUuid| {
        &&& !(#[trigger] r.added@.contains_key(k))
        &&& !r.removed@.contains_key(k)
        &&& !r.modified@.contains_key(k)
        &&& (after@.contains_key(k) && after@[k].datasets@.len() > 0 ==> r.unchanged@.contains_key(k)
            && r.unchanged@[k].datasets@ == after@[k].datasets@)
    } by {
        let ts = datasets_after_of(after, k);
        assert(datasets_before_of(before, k) == ts);
        assert(dataset_ids_distinct(ts));
        lemma_datasets_self_diff(ts);
        lemma_datasets_self_unchanged(ts);
        assert(r.sled_is(k, ts, ts, dataset_generation_before(before, k), dataset_generation_after(after, k), crate::datasets::datasets_only_before(before, after, k)));
    }
    assert forall|k: SledUuid| !(#[trigger] r.removed@.contains_key(k)) by {
        assert(!r.added@.contains_key(k) && !r.removed@.contains_key(k));
    }
    assert forall|k: SledUuid| !(#[trigger] r.modified@.contains_key(k)) by {
        assert(!r.added@.contains_key(k) && !r.modified@.contains_key(k));
    }
    assert forall|k: SledUuid| #[trigger] after@.contains_key(k) && after@[k].datasets@.len() > 0 implies r.unchanged@.contains_key(k)
            && r.unchanged@[k].datasets@ == after@[k].datasets@ by {
        assert(!r.added@.contains_key(k));
    }
}

} // verus!
