//! The aggregate diff of two fleet snapshots: the three category diffs and the
//! classification of every sled.

use vstd::prelude::*;
use crate::datasets::{BlueprintDatasetsConfig, BlueprintOrCollectionDatasetsConfig, BpDiffDatasets, datasets_after_wf, datasets_before_wf};
use crate::disks::{BlueprintOrCollectionDisksConfig, BlueprintPhysicalDisksConfig, BpDiffPhysicalDisks, disks_after_wf, disks_before_wf};
use crate::sled_map::{SledMap, SledUuid};
use crate::zones::{BlueprintOrCollectionZonesConfig, BlueprintZonesConfig, BpDiffZones, zones_after_wf, zones_before_wf};

verus! {

/// The provisioning state of a sled.
#[derive(Clone, Copy, Debug, PartialEq, Eq, Structural)]
pub enum SledState {
    Active,
    Decommissioned,
}

pub open spec fn sled_state_text(s: SledState) -> Seq<char> {
    match s {
        SledState::Active => "active"@,
        SledState::Decommissioned => "decommissioned"@,
    }
}

impl SledState {
    pub fn as_str(&self) -> (r: &'static str)
        ensures
            r@ == sled_state_text(*self),
    {
        match self {
            SledState::Active => "active",
            SledState::Decommissioned => "decommissioned",
        }
    }
}

/// The ids are strictly increasing.
pub open spec fn strictly_increasing(s: Seq<SledUuid>) -> bool {
    forall|i: int, j: int| 0 <= i < j < s.len() ==> s[i] < s[j]
}

/// Adds `k` to the strictly increasing `v`, where it is not already.
pub fn insert_sled_id(v: &mut Vec<SledUuid>, k: SledUuid)
    requires
        strictly_increasing(old(v)@),
    ensures
        strictly_increasing(final(v)@),
        forall|x: SledUuid| #[trigger] final(v)@.contains(x) <==> (old(v)@.contains(x) || x == k),
{
    let mut p: usize = 0;
    while p < v.len()
        invariant
            p <= v@.len(),
            v@ == old(v)@,
            strictly_increasing(v@),
            forall|i: int| 0 <= i < p ==> #[trigger] v@[i] < k,
        ensures
            p <= v@.len(),
            v@ == old(v)@,
            forall|i: int| 0 <= i < p ==> #[trigger] v@[i] < k,
            p < v@.len() ==> v@[p as int] >= k,
        decreases v@.len() - p,
    {
        if v[p] >= k {
            break;
        }
        p = p + 1;
    }
    if p < v.len() && v[p] == k {
        return;
    }
    let ghost before = v@;
    v.insert(p, k);
    proof {
        assert forall|x: SledUuid| #[trigger] v@.contains(x) <==> (before.contains(x) || x == k) by {
            if v@.contains(x) {
                let i = choose|i: int| 0 <= i < v@.len() && v@[i] == x;
                if i < p {
                    assert(before[i] == x);
                } else if i > p {
                    assert(before[i - 1] == x);
                }
            }
            if before.contains(x) {
                let i = choose|i: int| 0 <= i < before.len() && before[i] == x;
                if i < p {
                    assert(v@[i] == x);
                } else {
                    assert(v@[i + 1] == x);
                }
            }
            if x == k {
                assert(v@[p as int] == x);
            }
        }
    }
}

/// Adds the keys of `m` to the strictly increasing `v`.
pub fn insert_sled_ids<T>(v: &mut Vec<SledUuid>, m: &SledMap<T>)
    requires
        strictly_increasing(old(v)@),
        m.wf(),
    ensures
        strictly_increasing(final(v)@),
        forall|x: SledUuid| #[trigger] final(v)@.contains(x) <==> (old(v)@.contains(x) || m@.contains_key(x)),
{
    let mut i: usize = 0;
    while i < m.entries.len()
        invariant
            i <= m.entries@.len(),
            m.wf(),
            strictly_increasing(v@),
            forall|x: SledUuid| #[trigger] v@.contains(x) <==> (old(v)@.contains(x) || exists|j: int| 0 <= j < i && #[trigger] m.entries@[j].0 == x),
        decreases m.entries@.len() - i,
    {
        let k = m.entries[i].0;
        insert_sled_id(v, k);
        proof {
            assert forall|x: SledUuid| #[trigger] v@.contains(x) <==> (old(v)@.contains(x) || exists|j: int| 0 <= j < i + 1 && #[trigger] m.entries@[j].0 == x) by {
                if x == k {
                    assert(m.entries@[i as int].0 == x);
                }
                if exists|j: int| 0 <= j < i + 1 && #[trigger] m.entries@[j].0 == x {
                    let j = choose|j: int| 0 <= j < i + 1 && #[trigger] m.entries@[j].0 == x;
                    if j < i {
                        assert(exists|j: int| 0 <= j < i && #[trigger] m.entries@[j].0 == x);
                    }
                }
            }
        }
        i = i + 1;
    }
    proof {
        assert forall|x: SledUuid| #[trigger] m@.contains_key(x) implies exists|j: int| 0 <= j < m.entries@.len() && #[trigger] m.entries@[j].0 == x by {
        }
    }
}

/// Whether the strictly increasing `v` holds `k`.
pub fn holds_sled_id(v: &Vec<SledUuid>, k: SledUuid) -> (r: bool)
    ensures
        r == v@.contains(k),
{
    let mut i: usize = 0;
    while i < v.len()
        invariant
            i <= v@.len(),
            forall|j: int| 0 <= j < i ==> v@[j] != k,
        decreases v@.len() - i,
    {
        if v[i] == k {
            return true;
        }
        i = i + 1;
    }
    false
}

/// The sled needs the decommissioning patch: it was decommissioned, the later states
/// lack it, and the later zones or disks still hold it.
pub open spec fn needs_decommission_patch(
    before_state: Map<SledUuid, SledState>,
    after_state: Map<SledUuid, SledState>,
    after_zone_sleds: Set<SledUuid>,
    after_disk_sleds: Set<SledUuid>,
    k: SledUuid,
) -> bool {
    &&& before_state.contains_key(k)
    &&& before_state[k] == SledState::Decommissioned
    &&& !after_state.contains_key(k)
    &&& (after_zone_sleds.contains(k) || after_disk_sleds.contains(k))
}

/// The later sled states, with `Decommissioned` filled in for each sled that needs
/// the decommissioning patch.
pub open spec fn patched_after_state(
    before_state: Map<SledUuid, SledState>,
    after_state: Map<SledUuid, SledState>,
    after_zone_sleds: Set<SledUuid>,
    after_disk_sleds: Set<SledUuid>,
) -> Map<SledUuid, SledState> {
    Map::new(
        |k: SledUuid|
            after_state.contains_key(k) || needs_decommission_patch(
                before_state,
                after_state,
                after_zone_sleds,
                after_disk_sleds,
                k,
            ),
        |k: SledUuid|
            if after_state.contains_key(k) {
                after_state[k]
            } else {
                SledState::Decommissioned
            },
    )
}

/// Fills in `Decommissioned` in `after_state` for each sled that needs the
/// decommissioning patch.
pub fn patch_decommissioned(
    before_state: &SledMap<SledState>,
    after_state: &mut SledMap<SledState>,
    after_zones: &SledMap<BlueprintZonesConfig>,
    after_disks: &SledMap<BlueprintPhysicalDisksConfig>,
)
    requires
        before_state.wf(),
        old(after_state).wf(),
        after_zones.wf(),
        after_disks.wf(),
    ensures
        final(after_state).wf(),
        final(after_state)@ == patched_after_state(
            before_state@,
            old(after_state)@,
            after_zones@.dom(),
            after_disks@.dom(),
        ),
{
    let ghost target = patched_after_state(
        before_state@,
        old(after_state)@,
        after_zones@.dom(),
        after_disks@.dom(),
    );
    let mut i: usize = 0;
    while i < before_state.entries.len()
        invariant
            i <= before_state.entries@.len(),
            before_state.wf(),
            after_state.wf(),
            after_zones.wf(),
            after_disks.wf(),
            target == patched_after_state(
                before_state@,
                old(after_state)@,
                after_zones@.dom(),
                after_disks@.dom(),
            ),
            forall|k: SledUuid| #[trigger]
                after_state@.contains_key(k) == (old(after_state)@.contains_key(k) || (target.contains_key(k) && exists|j: int| 0 <= j < i && #[trigger] before_state.entries@[j].0 == k)),
            forall|k: SledUuid| #[trigger] after_state@.contains_key(k) ==> after_state@[k] == target[k],
        decreases before_state.entries@.len() - i,
    {
        let k = before_state.entries[i].0;
        let s = before_state.entries[i].1;
        proof {
            before_state.lemma_entry(i as int);
        }
        let ghost prev = after_state@;
        if s == SledState::Decommissioned && !after_state.contains_key(k) && (
        after_zones.contains_key(k) || after_disks.contains_key(k)) {
            after_state.insert(k, SledState::Decommissioned);
        }
        proof {
            assert forall|x: SledUuid| #[trigger]
                after_state@.contains_key(x) == (old(after_state)@.contains_key(x) || (target.contains_key(x) && exists|j: int| 0 <= j < i + 1 && #[trigger] before_state.entries@[j].0 == x)) by {
                if exists|j: int| 0 <= j < i + 1 && #[trigger] before_state.entries@[j].0 == x {
                    let j = choose|j: int| 0 <= j < i + 1 && #[trigger] before_state.entries@[j].0 == x;
                    if j < i {
                        assert(exists|j: int| 0 <= j < i && #[trigger] before_state.entries@[j].0 == x);
                    }
                }
                if x == k {
                    assert(before_state.entries@[i as int].0 == x);
                }
            }
        }
        i = i + 1;
    }
    proof {
        assert forall|k: SledUuid| #[trigger] target.contains_key(k) implies after_state@.contains_key(k) by {
            if !old(after_state)@.contains_key(k) {
                assert(before_state@.contains_key(k));
                let j = before_state.index_of_key(k);
                assert(before_state.entries@[j].0 == k);
            }
        }
        assert(after_state@ =~= target);
    }
}

/// The setting that keeps a CockroachDB cluster from finalizing an upgrade.
#[derive(Clone, Debug)]
pub enum CockroachDbPreserveDowngrade {
    DoNotModify,
    AllowUpgrade,
    SetVersion(String),
}

/// What a blueprint records besides its sleds.
#[derive(Debug)]
pub struct BlueprintMetadata {
    pub id: u128,
    pub internal_dns_version: u64,
    pub external_dns_version: u64,
    pub cockroachdb_fingerprint: String,
    pub cockroachdb_setting_preserve_downgrade: Option<CockroachDbPreserveDowngrade>,
}

/// What the earlier snapshot records besides its sleds: a collection has an id only.
#[derive(Debug)]
pub enum DiffBeforeMetadata {
    Collection { id: u128 },
    Blueprint(BlueprintMetadata),
}

/// The state that `m` gives sled `k`, if any.
pub open spec fn state_at(m: Map<SledUuid, SledState>, k: SledUuid) -> Option<SledState> {
    if m.contains_key(k) {
        Some(m[k])
    } else {
        None
    }
}

/// The sleds that the earlier snapshot mentions anywhere.
pub open spec fn sleds_before(
    state: SledMap<SledState>,
    zones: SledMap<BlueprintOrCollectionZonesConfig>,
    disks: SledMap<BlueprintOrCollectionDisksConfig>,
    datasets: SledMap<BlueprintOrCollectionDatasetsConfig>,
) -> Set<SledUuid> {
    state@.dom() + zones@.dom() + disks@.dom() + datasets@.dom()
}

/// The sleds that the later snapshot mentions anywhere, given its patched states.
pub open spec fn sleds_after(
    state: Map<SledUuid, SledState>,
    zones: SledMap<BlueprintZonesConfig>,
    disks: SledMap<BlueprintPhysicalDisksConfig>,
    datasets: SledMap<BlueprintDatasetsConfig>,
) -> Set<SledUuid> {
    state.dom() + zones@.dom() + disks@.dom() + datasets@.dom()
}

/// The differences between two snapshots of the fleet.
#[derive(Debug)]
pub struct BlueprintDiff {
    pub before_meta: DiffBeforeMetadata,
    pub after_meta: BlueprintMetadata,
    pub before_state: SledMap<SledState>,
    pub after_state: SledMap<SledState>,
    pub zones: BpDiffZones,
    pub physical_disks: BpDiffPhysicalDisks,
    pub datasets: BpDiffDatasets,
    pub sleds_added: Vec<SledUuid>,
    pub sleds_removed: Vec<SledUuid>,
    pub sleds_unchanged: Vec<SledUuid>,
    pub sleds_modified: Vec<SledUuid>,
}

impl BlueprintDiff {
    /// Sled `k` changed: its state differs, or it has a non-empty bucket of zones,
    /// disks or datasets other than unchanged.
    pub open spec fn sled_changed(&self, k: SledUuid) -> bool {
        ||| state_at(self.before_state@, k) != state_at(self.after_state@, k)
        ||| self.physical_disks.added@.contains_key(k)
        ||| (self.physical_disks.removed@.contains_key(k) && self.physical_disks.removed@[k].disks@.len() > 0)
        ||| self.datasets.added@.contains_key(k)
        ||| self.datasets.modified@.contains_key(k)
        ||| (self.datasets.removed@.contains_key(k) && self.datasets.removed@[k].datasets@.len() > 0)
        ||| self.zones.added@.contains_key(k)
        ||| self.zones.removed@.contains_key(k)
        ||| self.zones.modified@.contains_key(k)
        ||| self.zones.errors@.contains_key(k)
    }

    /// The four sled lists are strictly increasing, and split the sleds as follows:
    /// added where only `after_sleds` holds them, removed where only `before_sleds` does,
    /// and, of the sleds that both hold, modified where they changed and unchanged
    /// elsewhere.
    pub open spec fn classifies(&self, before_sleds: Set<SledUuid>, after_sleds: Set<SledUuid>) -> bool {
        &&& strictly_increasing(self.sleds_added@)
        &&& strictly_increasing(self.sleds_removed@)
        &&& strictly_increasing(self.sleds_modified@)
        &&& strictly_increasing(self.sleds_unchanged@)
        &&& forall|k: SledUuid| #[trigger]
            self.sleds_added@.contains(k) <==> (after_sleds.contains(k) && !before_sleds.contains(k))
        &&& forall|k: SledUuid| #[trigger]
            self.sleds_removed@.contains(k) <==> (before_sleds.contains(k) && !after_sleds.contains(k))
        &&& forall|k: SledUuid| #[trigger]
            self.sleds_modified@.contains(k) <==> (before_sleds.contains(k) && after_sleds.contains(k)
                && self.sled_changed(k))
        &&& forall|k: SledUuid| #[trigger]
            self.sleds_unchanged@.contains(k) <==> (before_sleds.contains(k) && after_sleds.contains(k)
                && !self.sled_changed(k))
    }

    /// The diff of the earlier snapshot (`before_*`) and the later one (`after_*`):
    /// the earlier states as given, the later ones with the decommissioning patch, the
    /// three category diffs, and the sleds classified by what happened to them.
    pub open spec fn is_diff_of(
        &self,
        before_state: SledMap<SledState>,
        before_zones: SledMap<BlueprintOrCollectionZonesConfig>,
        before_disks: SledMap<BlueprintOrCollectionDisksConfig>,
        before_datasets: SledMap<BlueprintOrCollectionDatasetsConfig>,
        after_state: SledMap<SledState>,
        after_zones: SledMap<BlueprintZonesConfig>,
        after_disks: SledMap<BlueprintPhysicalDisksConfig>,
        after_datasets: SledMap<BlueprintDatasetsConfig>,
    ) -> bool {
        &&& self.wf()
        &&& self.before_state == before_state
        &&& self.after_state@ == patched_after_state(
            before_state@,
            after_state@,
            after_zones@.dom(),
            after_disks@.dom(),
        )
        &&& self.zones.is_diff_of(before_zones, after_zones)
        &&& self.physical_disks.is_diff_of(before_disks, after_disks)
        &&& self.datasets.is_diff_of(before_datasets, after_datasets)
        &&& self.classifies(
            sleds_before(before_state, before_zones, before_disks, before_datasets),
            sleds_after(self.after_state@, after_zones, after_disks, after_datasets),
        )
    }

    pub open spec fn wf(&self) -> bool {
        &&& self.before_state.wf()
        &&& self.after_state.wf()
        &&& self.zones.wf()
        &&& self.physical_disks.wf()
        &&& self.physical_disks.ordered()
        &&& self.datasets.wf()
        &&& self.datasets.ordered()
    }

    /// Whether the two sled states that the diff holds for `k` differ.
    fn state_changed(&self, k: SledUuid) -> (r: bool)
        requires
            self.wf(),
        ensures
            r == (state_at(self.before_state@, k) != state_at(self.after_state@, k)),
    {
        match (self.before_state.get(k), self.after_state.get(k)) {
            (Some(b), Some(a)) => *b != *a,
            (None, None) => false,
            _ => true,
        }
    }

    /// Whether sled `k` changed.
    fn changed(&self, k: SledUuid) -> (r: bool)
        requires
            self.wf(),
        ensures
            r == self.sled_changed(k),
    {
        self.state_changed(k) || self.physical_disks.added.contains_key(k)
            || match self.physical_disks.removed.get(k) {
            Some(d) => d.disks.len() > 0,
            None => false,
        } || self.datasets.added.contains_key(k) || self.datasets.modified.contains_key(k)
            || match self.datasets.removed.get(k) {
            Some(d) => d.datasets.len() > 0,
            None => false,
        }
            || self.zones.added.contains_key(k) || self.zones.removed.contains_key(k)
            || self.zones.modified.contains_key(k) || self.zones.errors.contains_key(k)
    }

    /// Builds the diff of the earlier snapshot (`before_*`) and the later one
    /// (`after_*`).
    pub fn new(
        before_meta: DiffBeforeMetadata,
        before_state: SledMap<SledState>,
        before_zones: SledMap<BlueprintOrCollectionZonesConfig>,
        before_disks: SledMap<BlueprintOrCollectionDisksConfig>,
        before_datasets: SledMap<BlueprintOrCollectionDatasetsConfig>,
        after_meta: BlueprintMetadata,
        after_state: SledMap<SledState>,
        after_zones: SledMap<BlueprintZonesConfig>,
        after_disks: SledMap<BlueprintPhysicalDisksConfig>,
        after_datasets: SledMap<BlueprintDatasetsConfig>,
    ) -> (r: Self)
        requires
            before_state.wf(),
            zones_before_wf(before_zones),
            disks_before_wf(before_disks),
            datasets_before_wf(before_datasets),
            after_state.wf(),
            zones_after_wf(after_zones),
            disks_after_wf(after_disks),
            datasets_after_wf(after_datasets),
        ensures
            r.before_meta == before_meta,
            r.after_meta == after_meta,
            r.is_diff_of(
                before_state,
                before_zones,
                before_disks,
                before_datasets,
                after_state,
                after_zones,
                after_disks,
                after_datasets,
            ),
    {
        let mut patched = after_state;
        patch_decommissioned(&before_state, &mut patched, &after_zones, &after_disks);

        let mut before_sleds: Vec<SledUuid> = Vec::new();
        insert_sled_ids(&mut before_sleds, &before_state);
        insert_sled_ids(&mut before_sleds, &before_zones);
        insert_sled_ids(&mut before_sleds, &before_disks);
        insert_sled_ids(&mut before_sleds, &before_datasets);
        let mut after_sleds: Vec<SledUuid> = Vec::new();
        insert_sled_ids(&mut after_sleds, &patched);
        insert_sled_ids(&mut after_sleds, &after_zones);
        insert_sled_ids(&mut after_sleds, &after_disks);
        insert_sled_ids(&mut after_sleds, &after_datasets);
        let ghost bset = sleds_before(before_state, before_zones, before_disks, before_datasets);
        let ghost aset = sleds_after(patched@, after_zones, after_disks, after_datasets);
        proof {
            assert forall|k: SledUuid| #[trigger] before_sleds@.contains(k) == bset.contains(k) by {}
            assert forall|k: SledUuid| #[trigger] after_sleds@.contains(k) == aset.contains(k) by {}
        }
        let mut all_sleds: Vec<SledUuid> = Vec::new();
        proof {
            assert(before_sleds@.take(0) =~= Seq::<SledUuid>::empty());
            assert(after_sleds@.take(0) =~= Seq::<SledUuid>::empty());
        }
        let mut i: usize = 0;
        while i < before_sleds.len()
            invariant
                i <= before_sleds@.len(),
                strictly_increasing(all_sleds@),
                forall|k: SledUuid| #[trigger] all_sleds@.contains(k) <==> before_sleds@.take(i as int).contains(k),
            decreases before_sleds@.len() - i,
        {
            insert_sled_id(&mut all_sleds, before_sleds[i]);
            proof {
                lemma_take_one_more(before_sleds@, i as int);
            }
            i = i + 1;
        }
        proof {
            assert(before_sleds@.take(before_sleds@.len() as int) =~= before_sleds@);
        }
        let mut i: usize = 0;
        while i < after_sleds.len()
            invariant
                i <= after_sleds@.len(),
                strictly_increasing(all_sleds@),
                forall|k: SledUuid| #[trigger] all_sleds@.contains(k) <==> (before_sleds@.contains(k) || after_sleds@.take(i as int).contains(k)),
            decreases after_sleds@.len() - i,
        {
            insert_sled_id(&mut all_sleds, after_sleds[i]);
            proof {
                lemma_take_one_more(after_sleds@, i as int);
            }
            i = i + 1;
        }
        proof {
            assert(before_sleds@.take(before_sleds@.len() as int) =~= before_sleds@);
            assert(after_sleds@.take(after_sleds@.len() as int) =~= after_sleds@);
        }

        let zones = BpDiffZones::new(before_zones, after_zones);
        let physical_disks = BpDiffPhysicalDisks::new(before_disks, after_disks);
        let datasets = BpDiffDatasets::new(before_datasets, after_datasets);
        let mut diff = BlueprintDiff {
            before_meta,
            after_meta,
            before_state,
            after_state: patched,
            zones,
            physical_disks,
            datasets,
            sleds_added: Vec::new(),
            sleds_removed: Vec::new(),
            sleds_unchanged: Vec::new(),
            sleds_modified: Vec::new(),
        };
        let mut added: Vec<SledUuid> = Vec::new();
        let mut removed: Vec<SledUuid> = Vec::new();
        let mut modified: Vec<SledUuid> = Vec::new();
        let mut unchanged: Vec<SledUuid> = Vec::new();
        let mut i: usize = 0;
        while i < all_sleds.len()
            invariant
                i <= all_sleds@.len(),
                diff.wf(),
                strictly_increasing(all_sleds@),
                forall|k: SledUuid| #[trigger] before_sleds@.contains(k) == bset.contains(k),
                forall|k: SledUuid| #[trigger] after_sleds@.contains(k) == aset.contains(k),
                strictly_increasing(added@),
                strictly_increasing(removed@),
                strictly_increasing(modified@),
                strictly_increasing(unchanged@),
                i < all_sleds@.len() ==> forall|m: int| 0 <= m < added@.len() ==> #[trigger] added@[m] < all_sleds@[i as int],
                i < all_sleds@.len() ==> forall|m: int| 0 <= m < removed@.len() ==> #[trigger] removed@[m] < all_sleds@[i as int],
                i < all_sleds@.len() ==> forall|m: int| 0 <= m < modified@.len() ==> #[trigger] modified@[m] < all_sleds@[i as int],
                i < all_sleds@.len() ==> forall|m: int| 0 <= m < unchanged@.len() ==> #[trigger] unchanged@[m] < all_sleds@[i as int],
                forall|k: SledUuid| #[trigger] added@.contains(k) <==> (all_sleds@.take(i as int).contains(k) && aset.contains(k) && !bset.contains(k)),
                forall|k: SledUuid| #[trigger] removed@.contains(k) <==> (all_sleds@.take(i as int).contains(k) && bset.contains(k) && !aset.contains(k)),
                forall|k: SledUuid| #[trigger] modified@.contains(k) <==> (all_sleds@.take(i as int).contains(k) && bset.contains(k) && aset.contains(k) && diff.sled_changed(k)),
                forall|k: SledUuid| #[trigger] unchanged@.contains(k) <==> (all_sleds@.take(i as int).contains(k) && bset.contains(k) && aset.contains(k) && !diff.sled_changed(k)),
            decreases all_sleds@.len() - i,
        {
            let k = all_sleds[i];
            let in_before = holds_sled_id(&before_sleds, k);
            let in_after = holds_sled_id(&after_sleds, k);
            let ghost (a0, r0, m0, u0) = (added@, removed@, modified@, unchanged@);
            if in_after && !in_before {
                added.push(k);
            } else if in_before && !in_after {
                removed.push(k);
            } else if in_before && in_after {
                if diff.changed(k) {
                    modified.push(k);
                } else {
                    unchanged.push(k);
                }
            }
            proof {
                let t = all_sleds@.take(i as int);
                lemma_take_one_more(all_sleds@, i as int);
                assert forall|x: SledUuid| #[trigger] added@.contains(x) <==> (a0.contains(x) || (x == k && in_after && !in_before)) by {
                    if added@ != a0 {
                        assert(added@ == a0.push(k));
                        if added@.contains(x) {
                            let j = choose|j: int| 0 <= j < added@.len() && added@[j] == x;
                            if j < a0.len() {
                                assert(a0[j] == x);
                            }
                        }
                        if a0.contains(x) {
                            let j = choose|j: int| 0 <= j < a0.len() && a0[j] == x;
                            assert(added@[j] == x);
                        }
                        if x == k {
                            assert(added@[a0.len() as int] == x);
                        }
                    }
                }
                assert forall|x: SledUuid| #[trigger] removed@.contains(x) <==> (r0.contains(x) || (x == k && in_before && !in_after)) by {
                    if removed@ != r0 {
                        assert(removed@ == r0.push(k));
                        if removed@.contains(x) {
                            let j = choose|j: int| 0 <= j < removed@.len() && removed@[j] == x;
                            if j < r0.len() {
                                assert(r0[j] == x);
                            }
                        }
                        if r0.contains(x) {
                            let j = choose|j: int| 0 <= j < r0.len() && r0[j] == x;
                            assert(removed@[j] == x);
                        }
                        if x == k {
                            assert(removed@[r0.len() as int] == x);
                        }
                    }
                }
                assert forall|x: SledUuid| #[trigger] modified@.contains(x) <==> (m0.contains(x) || (x == k && in_before && in_after && diff.sled_changed(k))) by {
                    if modified@ != m0 {
                        assert(modified@ == m0.push(k));
                        if modified@.contains(x) {
                            let j = choose|j: int| 0 <= j < modified@.len() && modified@[j] == x;
                            if j < m0.len() {
                                assert(m0[j] == x);
                            }
                        }
                        if m0.contains(x) {
                            let j = choose|j: int| 0 <= j < m0.len() && m0[j] == x;
                            assert(modified@[j] == x);
                        }
                        if x == k {
                            assert(modified@[m0.len() as int] == x);
                        }
                    }
                }
                assert forall|x: SledUuid| #[trigger] unchanged@.contains(x) <==> (u0.contains(x) || (x == k && in_before && in_after && !diff.sled_changed(k))) by {
                    if unchanged@ != u0 {
                        assert(unchanged@ == u0.push(k));
                        if unchanged@.contains(x) {
                            let j = choose|j: int| 0 <= j < unchanged@.len() && unchanged@[j] == x;
                            if j < u0.len() {
                                assert(u0[j] == x);
                            }
                        }
                        if u0.contains(x) {
                            let j = choose|j: int| 0 <= j < u0.len() && u0[j] == x;
                            assert(unchanged@[j] == x);
                        }
                        if x == k {
                            assert(unchanged@[u0.len() as int] == x);
                        }
                    }
                }
                assert forall|x: SledUuid| t.contains(x) implies x < k by {
                    let j = choose|j: int| 0 <= j < t.len() && t[j] == x;
                    assert(all_sleds@[j] == x);
                }
                if i + 1 < all_sleds@.len() {
                    assert(k < all_sleds@[i + 1]);
                }
            }
            i = i + 1;
        }
        proof {
            assert(all_sleds@.take(all_sleds@.len() as int) =~= all_sleds@);
        }
        diff.sleds_added = added;
        diff.sleds_removed = removed;
        diff.sleds_modified = modified;
        diff.sleds_unchanged = unchanged;
        diff
    }
}

/// What the first `i + 1` ids hold: what the first `i` hold, and the next one.
pub proof fn lemma_take_one_more(s: Seq<SledUuid>, i: int)
    requires
        0 <= i < s.len(),
    ensures
        forall|x: SledUuid| #[trigger] s.take(i + 1).contains(x) <==> (s.take(i).contains(x) || x == s[i]),
{
    assert(s.take(i + 1) =~= s.take(i).push(s[i]));
    assert forall|x: SledUuid| #[trigger] s.take(i + 1).contains(x) <==> (s.take(i).contains(x) || x == s[i]) by {
        if s.take(i).contains(x) {
            let j = choose|j: int| 0 <= j < i && #[trigger] s.take(i)[j] == x;
            assert(s.take(i + 1)[j] == x);
        }
        if x == s[i] {
            assert(s.take(i + 1)[i] == x);
        }
        if s.take(i + 1).contains(x) {
            let j = choose|j: int| 0 <= j < i + 1 && #[trigger] s.take(i + 1)[j] == x;
            if j < i {
                assert(s.take(i)[j] == x);
            }
        }
    }
}

} // verus!
