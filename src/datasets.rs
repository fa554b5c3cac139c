//! Datasets: the per-sled dataset diff, keyed by dataset id, with field-level change
//! detection.

use vstd::prelude::*;
use crate::sled_map::{SledMap, SledUuid};
use crate::text::{string_of, uuid_text, uuid_to_string};
use crate::order::{ascending_by, lemma_filter_ascending};
use crate::zones::Generation;

verus! {

/// Stable identifier of a dataset, as the 128-bit value of its UUID.
pub type DatasetUuid = u128;

/// The lifecycle state of a dataset.
#[derive(Clone, Copy, Debug, PartialEq, Eq, Structural)]
pub enum BlueprintDatasetDisposition {
    InService,
    Expunged,
}

pub open spec fn dataset_disposition_text(d: BlueprintDatasetDisposition) -> Seq<char> {
    match d {
        BlueprintDatasetDisposition::InService => "in service"@,
        BlueprintDatasetDisposition::Expunged => "expunged"@,
    }
}

impl BlueprintDatasetDisposition {
    pub fn as_str(&self) -> (r: &'static str)
        ensures
            r@ == dataset_disposition_text(*self),
    {
        match self {
            BlueprintDatasetDisposition::InService => "in service",
            BlueprintDatasetDisposition::Expunged => "expunged",
        }
    }
}

/// A dataset as the diff compares and shows it. `name` is the dataset's full name;
/// `quota`, `reservation` and `compression` are the text that a report shows for them.
#[derive(Clone, Debug)]
pub struct BlueprintDatasetConfigForDiff {
    pub name: String,
    pub id: DatasetUuid,
    pub disposition: BlueprintDatasetDisposition,
    pub quota: String,
    pub reservation: String,
    pub compression: String,
}

/// Two dataset records are identical.
pub open spec fn same_dataset(a: BlueprintDatasetConfigForDiff, b: BlueprintDatasetConfigForDiff) -> bool {
    &&& a.name@ == b.name@
    &&& a.id == b.id
    &&& a.disposition == b.disposition
    &&& a.quota@ == b.quota@
    &&& a.reservation@ == b.reservation@
    &&& a.compression@ == b.compression@
}

/// The displayable fields of a dataset, in the order in which a report shows them.
pub open spec fn dataset_field_texts(d: BlueprintDatasetConfigForDiff) -> Seq<Seq<char>> {
    seq![
        d.name@,
        uuid_text(d.id),
        dataset_disposition_text(d.disposition),
        d.quota@,
        d.reservation@,
        d.compression@,
    ]
}

/// The text of each string.
pub open spec fn texts(s: Seq<String>) -> Seq<Seq<char>> {
    s.map_values(|x: String| x@)
}

impl BlueprintDatasetConfigForDiff {
    pub fn duplicate(&self) -> (r: Self)
        ensures
            r == *self,
    {
        BlueprintDatasetConfigForDiff {
            name: self.name.clone(),
            id: self.id,
            disposition: self.disposition,
            quota: self.quota.clone(),
            reservation: self.reservation.clone(),
            compression: self.compression.clone(),
        }
    }

    /// The displayable fields, in order.
    pub fn as_strings(&self) -> (r: Vec<String>)
        ensures
            texts(r@) == dataset_field_texts(*self),
    {
        let mut r: Vec<String> = Vec::new();
        r.push(self.name.clone());
        r.push(uuid_to_string(self.id));
        r.push(string_of(self.disposition.as_str()));
        r.push(self.quota.clone());
        r.push(self.reservation.clone());
        r.push(self.compression.clone());
        proof {
            assert(texts(r@) =~= dataset_field_texts(*self));
        }
        r
    }

    /// Whether the two records are identical.
    pub fn same_as(&self, other: &BlueprintDatasetConfigForDiff) -> (r: bool)
        ensures
            r == same_dataset(*self, *other),
    {
        self.name == other.name && self.id == other.id && self.disposition == other.disposition
            && self.quota == other.quota && self.reservation == other.reservation
            && self.compression == other.compression
    }
}

/// A dataset whose record changed: both records.
#[derive(Debug)]
pub struct ModifiedDataset {
    pub before: BlueprintDatasetConfigForDiff,
    pub after: BlueprintDatasetConfigForDiff,
}

/// No two datasets share an id.
pub open spec fn dataset_ids_distinct(s: Seq<BlueprintDatasetConfigForDiff>) -> bool {
    forall|i: int, j: int| 0 <= i < j < s.len() ==> s[i].id != s[j].id
}

pub open spec fn dataset_order() -> spec_fn(BlueprintDatasetConfigForDiff, BlueprintDatasetConfigForDiff) -> bool {
    |a: BlueprintDatasetConfigForDiff, b: BlueprintDatasetConfigForDiff| a.id < b.id
}

/// The datasets are in strictly ascending id order, so no id occurs twice.
pub open spec fn datasets_ascending(s: Seq<BlueprintDatasetConfigForDiff>) -> bool {
    ascending_by(s, dataset_order())
}

/// The modified datasets are in strictly ascending id order.
pub open spec fn modified_ascending(s: Seq<ModifiedDataset>) -> bool {
    forall|i: int, j: int| 0 <= i < j < s.len() ==> s[i].before.id < s[j].before.id
}

/// Whether the datasets are in strictly ascending id order, as the dataset diff
/// requires.
pub fn datasets_in_order(v: &Vec<BlueprintDatasetConfigForDiff>) -> (r: bool)
    ensures
        r == datasets_ascending(v@),
{
    let mut i: usize = 1;
    if v.len() == 0 {
        return true;
    }
    while i < v.len()
        invariant
            1 <= i <= v@.len(),
            forall|p: int, q: int| 0 <= p < q < i ==> v@[p].id < v@[q].id,
        decreases v@.len() - i,
    {
        if v[i - 1].id >= v[i].id {
            proof {
                assert(!dataset_order()(v@[i - 1], v@[i as int]));
            }
            return false;
        }
        i = i + 1;
    }
    true
}

pub open spec fn has_dataset(s: Seq<BlueprintDatasetConfigForDiff>, id: DatasetUuid) -> bool {
    exists|i: int| 0 <= i < s.len() && #[trigger] s[i].id == id
}

/// The dataset of `s` with the given id (meaningful where `has_dataset(s, id)`).
pub open spec fn dataset_with_id(s: Seq<BlueprintDatasetConfigForDiff>, id: DatasetUuid) -> BlueprintDatasetConfigForDiff {
    s[choose|i: int| 0 <= i < s.len() && #[trigger] s[i].id == id]
}

pub open spec fn dataset_unchanged_in(after: Seq<BlueprintDatasetConfigForDiff>) -> spec_fn(BlueprintDatasetConfigForDiff) -> bool {
    |b: BlueprintDatasetConfigForDiff| has_dataset(after, b.id) && same_dataset(b, dataset_with_id(after, b.id))
}

pub open spec fn dataset_modified_in(after: Seq<BlueprintDatasetConfigForDiff>) -> spec_fn(BlueprintDatasetConfigForDiff) -> bool {
    |b: BlueprintDatasetConfigForDiff| has_dataset(after, b.id) && !same_dataset(b, dataset_with_id(after, b.id))
}

pub open spec fn dataset_missing_from(other: Seq<BlueprintDatasetConfigForDiff>) -> spec_fn(BlueprintDatasetConfigForDiff) -> bool {
    |d: BlueprintDatasetConfigForDiff| !has_dataset(other, d.id)
}

/// The later record of each unchanged dataset, in the earlier order.
pub open spec fn datasets_unchanged(before: Seq<BlueprintDatasetConfigForDiff>, after: Seq<BlueprintDatasetConfigForDiff>) -> Seq<BlueprintDatasetConfigForDiff> {
    before.filter(dataset_unchanged_in(after)).map_values(
        |b: BlueprintDatasetConfigForDiff| dataset_with_id(after, b.id),
    )
}

/// Both records of each changed dataset, in the earlier order.
pub open spec fn datasets_modified(before: Seq<BlueprintDatasetConfigForDiff>, after: Seq<BlueprintDatasetConfigForDiff>) -> Seq<ModifiedDataset> {
    before.filter(dataset_modified_in(after)).map_values(
        |b: BlueprintDatasetConfigForDiff|
            ModifiedDataset { before: b, after: dataset_with_id(after, b.id) },
    )
}

/// The datasets that only the earlier snapshot holds.
pub open spec fn datasets_removed(before: Seq<BlueprintDatasetConfigForDiff>, after: Seq<BlueprintDatasetConfigForDiff>) -> Seq<BlueprintDatasetConfigForDiff> {
    before.filter(dataset_missing_from(after))
}

/// The datasets that only the later snapshot holds.
pub open spec fn datasets_added(before: Seq<BlueprintDatasetConfigForDiff>, after: Seq<BlueprintDatasetConfigForDiff>) -> Seq<BlueprintDatasetConfigForDiff> {
    after.filter(dataset_missing_from(before))
}

/// The position of the dataset with the given id.
pub fn find_dataset(s: &Vec<BlueprintDatasetConfigForDiff>, id: DatasetUuid) -> (r: Option<usize>)
    ensures
        match r {
            Some(j) => j < s@.len() && s@[j as int].id == id,
            None => !has_dataset(s@, id),
        },
{
    let mut j: usize = 0;
    while j < s.len()
        invariant
            j <= s@.len(),
            forall|k: int| 0 <= k < j ==> s@[k].id != id,
        decreases s@.len() - j,
    {
        if s[j].id == id {
            return Some(j);
        }
        j = j + 1;
    }
    None
}

/// The dataset diff of one sled that both snapshots hold.
pub struct SledDatasetDiff {
    pub unchanged: Vec<BlueprintDatasetConfigForDiff>,
    pub modified: Vec<ModifiedDataset>,
    pub removed: Vec<BlueprintDatasetConfigForDiff>,
    pub added: Vec<BlueprintDatasetConfigForDiff>,
}

/// Sorts the datasets of one sled into unchanged, modified, removed and added.
pub fn diff_sled_datasets(before: &Vec<BlueprintDatasetConfigForDiff>, after: &Vec<BlueprintDatasetConfigForDiff>) -> (r: SledDatasetDiff)
    requires
        datasets_ascending(before@),
        datasets_ascending(after@),
    ensures
        r.unchanged@ == datasets_unchanged(before@, after@),
        r.modified@ == datasets_modified(before@, after@),
        r.removed@ == datasets_removed(before@, after@),
        r.added@ == datasets_added(before@, after@),
        datasets_ascending(r.unchanged@),
        modified_ascending(r.modified@),
        datasets_ascending(r.removed@),
        datasets_ascending(r.added@),
{
    broadcast use vstd::seq_lib::group_filter_ensures;

    let mut unchanged: Vec<BlueprintDatasetConfigForDiff> = Vec::new();
    let mut modified: Vec<ModifiedDataset> = Vec::new();
    let mut removed: Vec<BlueprintDatasetConfigForDiff> = Vec::new();
    let mut added: Vec<BlueprintDatasetConfigForDiff> = Vec::new();
    proof {
        assert(before@.take(0).filter(dataset_unchanged_in(after@)).len() == 0);
        assert(before@.take(0).filter(dataset_modified_in(after@)).len() == 0);
        assert(before@.take(0).filter(dataset_missing_from(after@)).len() == 0);
        assert(after@.take(0).filter(dataset_missing_from(before@)).len() == 0);
    }
    assert(dataset_ids_distinct(after@));
    let mut i: usize = 0;
    while i < before.len()
        invariant
            i <= before@.len(),
            dataset_ids_distinct(after@),
            unchanged@ =~= datasets_unchanged(before@.take(i as int), after@),
            modified@ =~= datasets_modified(before@.take(i as int), after@),
            removed@ =~= datasets_removed(before@.take(i as int), after@),
        decreases before@.len() - i,
    {
        let b = &before[i];
        let ghost prev = before@.take(i as int);
        proof {
            assert(before@.take(i + 1) =~= prev.push(*b));
            prev.lemma_filter_push(*b, dataset_unchanged_in(after@));
            prev.lemma_filter_push(*b, dataset_modified_in(after@));
            prev.lemma_filter_push(*b, dataset_missing_from(after@));
        }
        match find_dataset(after, b.id) {
            Some(j) => {
                let a = &after[j];
                proof {
                    assert(has_dataset(after@, b.id));
                    assert(dataset_with_id(after@, b.id) == *a);
                }
                if b.same_as(a) {
                    unchanged.push(a.duplicate());
                    proof {
                        let f = |b: BlueprintDatasetConfigForDiff| dataset_with_id(after@, b.id);
                        assert(prev.push(*b).filter(dataset_unchanged_in(after@)).map_values(f) =~= prev.filter(
                            dataset_unchanged_in(after@),
                        ).map_values(f).push(*a));
                    }
                } else {
                    modified.push(ModifiedDataset { before: b.duplicate(), after: a.duplicate() });
                    proof {
                        let f = |b: BlueprintDatasetConfigForDiff|
                            ModifiedDataset { before: b, after: dataset_with_id(after@, b.id) };
                        assert(prev.push(*b).filter(dataset_modified_in(after@)).map_values(f) =~= prev.filter(
                            dataset_modified_in(after@),
                        ).map_values(f).push(f(*b)));
                    }
                }
            },
            None => {
                removed.push(b.duplicate());
            },
        }
        i = i + 1;
    }
    proof {
        assert(before@.take(before@.len() as int) =~= before@);
    }
    let mut j: usize = 0;
    while j < after.len()
        invariant
            j <= after@.len(),
            added@ =~= datasets_added(before@, after@.take(j as int)),
        decreases after@.len() - j,
    {
        let a = &after[j];
        let ghost prev = after@.take(j as int);
        proof {
            assert(after@.take(j + 1) =~= prev.push(*a));
            prev.lemma_filter_push(*a, dataset_missing_from(before@));
        }
        if find_dataset(before, a.id).is_none() {
            added.push(a.duplicate());
        }
        j = j + 1;
    }
    proof {
        assert(after@.take(after@.len() as int) =~= after@);
        lemma_filter_ascending(before@, dataset_missing_from(after@), dataset_order());
        lemma_filter_ascending(after@, dataset_missing_from(before@), dataset_order());
        let fu = before@.filter(dataset_unchanged_in(after@));
        lemma_filter_ascending(before@, dataset_unchanged_in(after@), dataset_order());
        assert forall|i: int| 0 <= i < fu.len() implies #[trigger] unchanged@[i].id == fu[i].id by {
            assert(dataset_unchanged_in(after@)(fu[i]));
        }
        assert(datasets_ascending(unchanged@)) by {
            assert forall|i: int, j: int| 0 <= i < j < unchanged@.len() implies unchanged@[i].id < unchanged@[j].id by {
                assert(fu[i].id < fu[j].id);
            }
        }
        let fm = before@.filter(dataset_modified_in(after@));
        lemma_filter_ascending(before@, dataset_modified_in(after@), dataset_order());
        assert forall|i: int, j: int| 0 <= i < j < modified@.len() implies modified@[i].before.id < modified@[j].before.id by {
            assert(fm[i].id < fm[j].id);
        }
    }
    SledDatasetDiff { unchanged, modified, removed, added }
}

/// The datasets that a blueprint places on one sled.
#[derive(Debug)]
pub struct BlueprintDatasetsConfig {
    pub generation: Generation,
    pub datasets: Vec<BlueprintDatasetConfigForDiff>,
}

/// The datasets that an inventory collection observed on one sled.
#[derive(Debug)]
pub struct CollectionDatasetsConfig {
    pub datasets: Vec<BlueprintDatasetConfigForDiff>,
}

/// The datasets of one sled in the earlier snapshot, which is a blueprint or a collection.
#[derive(Debug)]
pub enum BlueprintOrCollectionDatasetsConfig {
    Collection(CollectionDatasetsConfig),
    Blueprint(BlueprintDatasetsConfig),
}

impl BlueprintOrCollectionDatasetsConfig {
    /// The generation: a collection has none.
    pub open spec fn spec_generation(&self) -> Option<Generation> {
        match self {
            BlueprintOrCollectionDatasetsConfig::Collection(_) => None,
            BlueprintOrCollectionDatasetsConfig::Blueprint(c) => Some(c.generation),
        }
    }

    pub open spec fn spec_datasets(&self) -> Seq<BlueprintDatasetConfigForDiff> {
        match self {
            BlueprintOrCollectionDatasetsConfig::Collection(c) => c.datasets@,
            BlueprintOrCollectionDatasetsConfig::Blueprint(c) => c.datasets@,
        }
    }

    pub fn generation(&self) -> (r: Option<Generation>)
        ensures
            r == self.spec_generation(),
    {
        match self {
            BlueprintOrCollectionDatasetsConfig::Collection(_) => None,
            BlueprintOrCollectionDatasetsConfig::Blueprint(c) => Some(c.generation),
        }
    }

    pub fn datasets(&self) -> (r: &Vec<BlueprintDatasetConfigForDiff>)
        ensures
            r@ == self.spec_datasets(),
    {
        match self {
            BlueprintOrCollectionDatasetsConfig::Collection(c) => &c.datasets,
            BlueprintOrCollectionDatasetsConfig::Blueprint(c) => &c.datasets,
        }
    }
}

/// Added, removed or unchanged datasets of one sled.
#[derive(Debug)]
pub struct DiffDatasetsDetails {
    /// Datasets that an inventory collection observed have no generation.
    pub before_generation: Option<Generation>,
    /// Datasets of a sled that the later snapshot lacks have no later generation.
    pub after_generation: Option<Generation>,
    pub datasets: Vec<BlueprintDatasetConfigForDiff>,
}

/// Modified datasets of one sled.
#[derive(Debug)]
pub struct BpDiffDatasetsModified {
    pub generation_before: Option<Generation>,
    pub generation_after: Option<Generation>,
    pub datasets: Vec<ModifiedDataset>,
}

/// All datasets across all sleds, by what happened to them.
#[derive(Debug)]
pub struct BpDiffDatasets {
    pub added: SledMap<DiffDatasetsDetails>,
    pub removed: SledMap<DiffDatasetsDetails>,
    pub modified: SledMap<BpDiffDatasetsModified>,
    pub unchanged: SledMap<DiffDatasetsDetails>,
}

pub open spec fn datasets_before_of(before: SledMap<BlueprintOrCollectionDatasetsConfig>, k: SledUuid) -> Seq<BlueprintDatasetConfigForDiff> {
    if before@.contains_key(k) {
        before@[k].spec_datasets()
    } else {
        Seq::empty()
    }
}

pub open spec fn datasets_after_of(after: SledMap<BlueprintDatasetsConfig>, k: SledUuid) -> Seq<BlueprintDatasetConfigForDiff> {
    if after@.contains_key(k) {
        after@[k].datasets@
    } else {
        Seq::empty()
    }
}

pub open spec fn dataset_generation_before(before: SledMap<BlueprintOrCollectionDatasetsConfig>, k: SledUuid) -> Option<Generation> {
    if before@.contains_key(k) {
        before@[k].spec_generation()
    } else {
        None
    }
}

pub open spec fn dataset_generation_after(after: SledMap<BlueprintDatasetsConfig>, k: SledUuid) -> Option<Generation> {
    if after@.contains_key(k) {
        Some(after@[k].generation)
    } else {
        None
    }
}

/// Every sled's dataset list is in strictly ascending id order.
pub open spec fn datasets_before_wf(m: SledMap<BlueprintOrCollectionDatasetsConfig>) -> bool {
    m.wf() && forall|k: SledUuid| #[trigger] m@.contains_key(k) ==> datasets_ascending(m@[k].spec_datasets())
}

/// Every sled's dataset list is in strictly ascending id order.
pub open spec fn datasets_after_wf(m: SledMap<BlueprintDatasetsConfig>) -> bool {
    m.wf() && forall|k: SledUuid| #[trigger] m@.contains_key(k) ==> datasets_ascending(m@[k].datasets@)
}

pub open spec fn dataset_details_are(d: DiffDatasetsDetails, gb: Option<Generation>, ga: Option<Generation>, expected: Seq<BlueprintDatasetConfigForDiff>) -> bool {
    d.before_generation == gb && d.after_generation == ga && d.datasets@ == expected
        && datasets_ascending(d.datasets@)
}

/// Only the earlier snapshot holds datasets for sled `k`.
pub open spec fn datasets_only_before(before: SledMap<BlueprintOrCollectionDatasetsConfig>, after: SledMap<BlueprintDatasetsConfig>, k: SledUuid) -> bool {
    before@.contains_key(k) && !after@.contains_key(k)
}

impl BpDiffDatasets {
    pub open spec fn wf(&self) -> bool {
        self.added.wf() && self.removed.wf() && self.modified.wf() && self.unchanged.wf()
    }

    /// Each bucket lists its datasets in strictly ascending id order.
    pub open spec fn ordered(&self) -> bool {
        &&& forall|k: SledUuid| #[trigger] self.added@.contains_key(k) ==> datasets_ascending(self.added@[k].datasets@)
        &&& forall|k: SledUuid| #[trigger] self.removed@.contains_key(k) ==> datasets_ascending(self.removed@[k].datasets@)
        &&& forall|k: SledUuid| #[trigger] self.modified@.contains_key(k) ==> modified_ascending(self.modified@[k].datasets@)
        &&& forall|k: SledUuid| #[trigger] self.unchanged@.contains_key(k) ==> datasets_ascending(self.unchanged@[k].datasets@)
    }

    pub open spec fn lacks(&self, k: SledUuid) -> bool {
        &&& !self.added@.contains_key(k)
        &&& !self.removed@.contains_key(k)
        &&& !self.modified@.contains_key(k)
        &&& !self.unchanged@.contains_key(k)
    }

    /// The buckets of sled `k` are those of the dataset lists `bs` (earlier) and `az`
    /// (later), with the generations `gb` and `ga`; a bucket that would be empty is
    /// left out.
    pub open spec fn sled_is(&self, k: SledUuid, bs: Seq<BlueprintDatasetConfigForDiff>, az: Seq<BlueprintDatasetConfigForDiff>, gb: Option<Generation>, ga: Option<Generation>, before_only: bool) -> bool {
        &&& self.added@.contains_key(k) <==> datasets_added(bs, az).len() > 0
        &&& self.added@.contains_key(k) ==> dataset_details_are(self.added@[k], gb, ga, datasets_added(bs, az))
        &&& self.removed@.contains_key(k) <==> (datasets_removed(bs, az).len() > 0 || before_only)
        &&& self.removed@.contains_key(k) ==> dataset_details_are(self.removed@[k], gb, ga, datasets_removed(bs, az))
        &&& self.unchanged@.contains_key(k) <==> datasets_unchanged(bs, az).len() > 0
        &&& self.unchanged@.contains_key(k) ==> dataset_details_are(self.unchanged@[k], gb, ga, datasets_unchanged(bs, az))
        &&& self.modified@.contains_key(k) <==> datasets_modified(bs, az).len() > 0
        &&& self.modified@.contains_key(k) ==> {
            let d = self.modified@[k];
            d.generation_before == gb && d.generation_after == ga && d.datasets@ == datasets_modified(bs, az)
                && modified_ascending(d.datasets@)
        }
    }

    /// The dataset diff of two snapshots: for each sled, its datasets by what happened
    /// to them.
    pub open spec fn is_diff_of(&self, before: SledMap<BlueprintOrCollectionDatasetsConfig>, after: SledMap<BlueprintDatasetsConfig>) -> bool {
        forall|k: SledUuid| #[trigger]
            self.sled_is(
                k,
                datasets_before_of(before, k),
                datasets_after_of(after, k),
                dataset_generation_before(before, k),
                dataset_generation_after(after, k),
                datasets_only_before(before, after, k),
            )
    }

    fn record_sled(&mut self, k: SledUuid, gb: Option<Generation>, ga: Option<Generation>, bs: &Vec<BlueprintDatasetConfigForDiff>, az: &Vec<BlueprintDatasetConfigForDiff>, before_only: bool)
        requires
            old(self).wf(),
            old(self).lacks(k),
            datasets_ascending(bs@),
            datasets_ascending(az@),
        ensures
            final(self).wf(),
            final(self).sled_is(k, bs@, az@, gb, ga, before_only),
            final(self).added@.remove(k) == old(self).added@.remove(k),
            final(self).removed@.remove(k) == old(self).removed@.remove(k),
            final(self).modified@.remove(k) == old(self).modified@.remove(k),
            final(self).unchanged@.remove(k) == old(self).unchanged@.remove(k),
    {
        let SledDatasetDiff { unchanged, modified, removed, added } = diff_sled_datasets(bs, az);
        if added.len() > 0 {
            self.added.insert(
                k,
                DiffDatasetsDetails { before_generation: gb, after_generation: ga, datasets: added },
            );
        }
        if removed.len() > 0 || before_only {
            self.removed.insert(
                k,
                DiffDatasetsDetails { before_generation: gb, after_generation: ga, datasets: removed },
            );
        }
        if modified.len() > 0 {
            self.modified.insert(
                k,
                BpDiffDatasetsModified { generation_before: gb, generation_after: ga, datasets: modified },
            );
        }
        if unchanged.len() > 0 {
            self.unchanged.insert(
                k,
                DiffDatasetsDetails {
                    before_generation: gb,
                    after_generation: ga,
                    datasets: unchanged,
                },
            );
        }
        proof {
            assert(self.added@.remove(k) =~= old(self).added@.remove(k));
            assert(self.removed@.remove(k) =~= old(self).removed@.remove(k));
            assert(self.modified@.remove(k) =~= old(self).modified@.remove(k));
            assert(self.unchanged@.remove(k) =~= old(self).unchanged@.remove(k));
        }
    }

    /// Compares the datasets of the earlier snapshot `before` with those of the later one
    /// `after`, sled by sled.
    pub fn new(before: SledMap<BlueprintOrCollectionDatasetsConfig>, after: SledMap<BlueprintDatasetsConfig>) -> (r: Self)
        requires
            datasets_before_wf(before),
            datasets_after_wf(after),
        ensures
            r.wf(),
            r.ordered(),
            r.is_diff_of(before, after),
    {
        let mut diffs = BpDiffDatasets {
            added: SledMap::new(),
            removed: SledMap::new(),
            modified: SledMap::new(),
            unchanged: SledMap::new(),
        };
        let mut i: usize = 0;
        while i < before.entries.len()
            invariant
                i <= before.entries@.len(),
                datasets_before_wf(before),
                datasets_after_wf(after),
                diffs.wf(),
                forall|k: SledUuid|
                    #![trigger diffs.lacks(k)]
                    #![trigger diffs.sled_is(k, datasets_before_of(before, k), datasets_after_of(after, k), dataset_generation_before(before, k), dataset_generation_after(after, k), datasets_only_before(before, after, k))]
                    if exists|j: int| 0 <= j < i && #[trigger] before.entries@[j].0 == k {
                        diffs.sled_is(
                            k,
                            datasets_before_of(before, k),
                            datasets_after_of(after, k),
                            dataset_generation_before(before, k),
                            dataset_generation_after(after, k),
                            datasets_only_before(before, after, k),
                        )
                    } else {
                        diffs.lacks(k)
                    },
            decreases before.entries@.len() - i,
        {
            let k = before.entries[i].0;
            let cfg = &before.entries[i].1;
            proof {
                before.lemma_entry(i as int);
                assert(!exists|j: int| 0 <= j < i && #[trigger] before.entries@[j].0 == k);
            }
            let empty: Vec<BlueprintDatasetConfigForDiff> = Vec::new();
            let ghost old_diffs = diffs;
            match after.get(k) {
                Some(a) => diffs.record_sled(k, cfg.generation(), Some(a.generation), cfg.datasets(), &a.datasets, false),
                None => diffs.record_sled(k, cfg.generation(), None, cfg.datasets(), &empty, true),
            }
            proof {
                assert forall|k2: SledUuid|
                    #![trigger diffs.lacks(k2)]
                    #![trigger diffs.sled_is(k2, datasets_before_of(before, k2), datasets_after_of(after, k2), dataset_generation_before(before, k2), dataset_generation_after(after, k2), datasets_only_before(before, after, k2))]
                    if exists|j: int| 0 <= j < i + 1 && #[trigger] before.entries@[j].0 == k2 {
                        diffs.sled_is(
                            k2,
                            datasets_before_of(before, k2),
                            datasets_after_of(after, k2),
                            dataset_generation_before(before, k2),
                            dataset_generation_after(after, k2),
                            datasets_only_before(before, after, k2),
                        )
                    } else {
                        diffs.lacks(k2)
                    } by {
                    if k2 != k {
                        lemma_datasets_same_elsewhere(
                            diffs,
                            old_diffs,
                            k,
                            k2,
                            datasets_before_of(before, k2),
                            datasets_after_of(after, k2),
                            dataset_generation_before(before, k2),
                            dataset_generation_after(after, k2),
                            datasets_only_before(before, after, k2),
                        );
                        if exists|j: int| 0 <= j < i + 1 && #[trigger] before.entries@[j].0 == k2 {
                            let j = choose|j: int| 0 <= j < i + 1 && #[trigger] before.entries@[j].0 == k2;
                            assert(j < i);
                        }
                    } else {
                        assert(before.entries@[i as int].0 == k2);
                    }
                }
            }
            i = i + 1;
        }
        proof {
            assert forall|k: SledUuid| #[trigger] before@.contains_key(k) == (exists|j: int| 0 <= j < before.entries@.len() && #[trigger] before.entries@[j].0 == k) by {}
        }
        let mut i: usize = 0;
        while i < after.entries.len()
            invariant
                i <= after.entries@.len(),
                datasets_before_wf(before),
                datasets_after_wf(after),
                diffs.wf(),
                forall|k: SledUuid|
                    #![trigger diffs.lacks(k)]
                    #![trigger diffs.sled_is(k, datasets_before_of(before, k), datasets_after_of(after, k), dataset_generation_before(before, k), dataset_generation_after(after, k), datasets_only_before(before, after, k))]
                    if before@.contains_key(k) || exists|j: int| 0 <= j < i && #[trigger] after.entries@[j].0 == k {
                        diffs.sled_is(
                            k,
                            datasets_before_of(before, k),
                            datasets_after_of(after, k),
                            dataset_generation_before(before, k),
                            dataset_generation_after(after, k),
                            datasets_only_before(before, after, k),
                        )
                    } else {
                        diffs.lacks(k)
                    },
            decreases after.entries@.len() - i,
        {
            let k = after.entries[i].0;
            let cfg = &after.entries[i].1;
            proof {
                after.lemma_entry(i as int);
                assert(!exists|j: int| 0 <= j < i && #[trigger] after.entries@[j].0 == k);
            }
            if !before.contains_key(k) {
                let empty: Vec<BlueprintDatasetConfigForDiff> = Vec::new();
                let ghost old_diffs = diffs;
                diffs.record_sled(k, None, Some(cfg.generation), &empty, &cfg.datasets, false);
                proof {
                    assert forall|k2: SledUuid|
                        #![trigger diffs.lacks(k2)]
                        #![trigger diffs.sled_is(k2, datasets_before_of(before, k2), datasets_after_of(after, k2), dataset_generation_before(before, k2), dataset_generation_after(after, k2), datasets_only_before(before, after, k2))]
                        if before@.contains_key(k2) || exists|j: int| 0 <= j < i + 1 && #[trigger] after.entries@[j].0 == k2 {
                            diffs.sled_is(
                                k2,
                                datasets_before_of(before, k2),
                                datasets_after_of(after, k2),
                                dataset_generation_before(before, k2),
                                dataset_generation_after(after, k2),
                                datasets_only_before(before, after, k2),
                            )
                        } else {
                            diffs.lacks(k2)
                        } by {
                        if k2 != k {
                            lemma_datasets_same_elsewhere(
                                diffs,
                                old_diffs,
                                k,
                                k2,
                                datasets_before_of(before, k2),
                                datasets_after_of(after, k2),
                                dataset_generation_before(before, k2),
                                dataset_generation_after(after, k2),
                                datasets_only_before(before, after, k2),
                            );
                            if exists|j: int| 0 <= j < i + 1 && #[trigger] after.entries@[j].0 == k2 {
                                let j = choose|j: int| 0 <= j < i + 1 && #[trigger] after.entries@[j].0 == k2;
                                assert(j < i);
                            }
                        } else {
                            assert(after.entries@[i as int].0 == k2);
                        }
                    }
                }
            } else {
                proof {
                    assert forall|k2: SledUuid|
                        #![trigger diffs.lacks(k2)]
                        #![trigger diffs.sled_is(k2, datasets_before_of(before, k2), datasets_after_of(after, k2), dataset_generation_before(before, k2), dataset_generation_after(after, k2), datasets_only_before(before, after, k2))]
                        if before@.contains_key(k2) || exists|j: int| 0 <= j < i + 1 && #[trigger] after.entries@[j].0 == k2 {
                            diffs.sled_is(
                                k2,
                                datasets_before_of(before, k2),
                                datasets_after_of(after, k2),
                                dataset_generation_before(before, k2),
                                dataset_generation_after(after, k2),
                                datasets_only_before(before, after, k2),
                            )
                        } else {
                            diffs.lacks(k2)
                        } by {
                        if exists|j: int| 0 <= j < i + 1 && #[trigger] after.entries@[j].0 == k2 {
                            let j = choose|j: int| 0 <= j < i + 1 && #[trigger] after.entries@[j].0 == k2;
                            if j == i {
                                assert(before@.contains_key(k2));
                            }
                        }
                    }
                }
            }
            i = i + 1;
        }
        proof {
            assert forall|k: SledUuid|
                #[trigger] diffs.sled_is(
                    k,
                    datasets_before_of(before, k),
                    datasets_after_of(after, k),
                    dataset_generation_before(before, k),
                    dataset_generation_after(after, k),
                    datasets_only_before(before, after, k),
                ) by {
                if !before@.contains_key(k) && !after@.contains_key(k) {
                    if exists|j: int| 0 <= j < i && #[trigger] after.entries@[j].0 == k {
                        let j = choose|j: int| 0 <= j < i && #[trigger] after.entries@[j].0 == k;
                        after.lemma_entry(j);
                    }
                    assert(diffs.lacks(k));
                    lemma_datasets_empty_sled(diffs, k);
                }
            }
        }
        proof {
            assert forall|k: SledUuid| #[trigger] diffs.added@.contains_key(k) implies datasets_ascending(diffs.added@[k].datasets@) by {
                assert(diffs.sled_is(
                    k,
                    datasets_before_of(before, k),
                    datasets_after_of(after, k),
                    dataset_generation_before(before, k),
                    dataset_generation_after(after, k),
                    datasets_only_before(before, after, k),
                ));
            }
            assert forall|k: SledUuid| #[trigger] diffs.removed@.contains_key(k) implies datasets_ascending(diffs.removed@[k].datasets@) by {
                assert(diffs.sled_is(
                    k,
                    datasets_before_of(before, k),
                    datasets_after_of(after, k),
                    dataset_generation_before(before, k),
                    dataset_generation_after(after, k),
                    datasets_only_before(before, after, k),
                ));
            }
            assert forall|k: SledUuid| #[trigger] diffs.modified@.contains_key(k) implies modified_ascending(diffs.modified@[k].datasets@) by {
                assert(diffs.sled_is(
                    k,
                    datasets_before_of(before, k),
                    datasets_after_of(after, k),
                    dataset_generation_before(before, k),
                    dataset_generation_after(after, k),
                    datasets_only_before(before, after, k),
                ));
            }
            assert forall|k: SledUuid| #[trigger] diffs.unchanged@.contains_key(k) implies datasets_ascending(diffs.unchanged@[k].datasets@) by {
                assert(diffs.sled_is(
                    k,
                    datasets_before_of(before, k),
                    datasets_after_of(after, k),
                    dataset_generation_before(before, k),
                    dataset_generation_after(after, k),
                    datasets_only_before(before, after, k),
                ));
            }
        }
        diffs
    }
}


/// A sled that neither snapshot holds has no datasets in any bucket.
proof fn lemma_datasets_empty_sled(d: BpDiffDatasets, k: SledUuid)
    requires
        d.lacks(k),
    ensures
        d.sled_is(k, Seq::empty(), Seq::empty(), None, None, false),
{
    broadcast use vstd::seq_lib::group_filter_ensures;

    let e = Seq::<BlueprintDatasetConfigForDiff>::empty();
    assert(e.filter(dataset_unchanged_in(e)).len() == 0);
    assert(e.filter(dataset_modified_in(e)).len() == 0);
    assert(e.filter(dataset_missing_from(e)).len() == 0);
}

/// Two dataset diffs that differ at most at sled `k` agree on every other sled.
proof fn lemma_datasets_same_elsewhere(a: BpDiffDatasets, b: BpDiffDatasets, k: SledUuid, k2: SledUuid, bs: Seq<BlueprintDatasetConfigForDiff>, az: Seq<BlueprintDatasetConfigForDiff>, gb: Option<Generation>, ga: Option<Generation>, before_only: bool)
    requires
        k != k2,
        a.added@.remove(k) == b.added@.remove(k),
        a.removed@.remove(k) == b.removed@.remove(k),
        a.modified@.remove(k) == b.modified@.remove(k),
        a.unchanged@.remove(k) == b.unchanged@.remove(k),
    ensures
        a.lacks(k2) == b.lacks(k2),
        a.sled_is(k2, bs, az, gb, ga, before_only) == b.sled_is(k2, bs, az, gb, ga, before_only),
{
    assert(a.added@.remove(k).contains_key(k2) == a.added@.contains_key(k2));
    assert(b.added@.remove(k).contains_key(k2) == b.added@.contains_key(k2));
    assert(a.removed@.remove(k).contains_key(k2) == a.removed@.contains_key(k2));
    assert(b.removed@.remove(k).contains_key(k2) == b.removed@.contains_key(k2));
    assert(a.modified@.remove(k).contains_key(k2) == a.modified@.contains_key(k2));
    assert(b.modified@.remove(k).contains_key(k2) == b.modified@.contains_key(k2));
    assert(a.unchanged@.remove(k).contains_key(k2) == a.unchanged@.contains_key(k2));
    assert(b.unchanged@.remove(k).contains_key(k2) == b.unchanged@.contains_key(k2));
    if a.added@.contains_key(k2) {
        assert(a.added@[k2] == a.added@.remove(k)[k2]);
        assert(b.added@[k2] == b.added@.remove(k)[k2]);
    }
    if a.removed@.contains_key(k2) {
        assert(a.removed@[k2] == a.removed@.remove(k)[k2]);
        assert(b.removed@[k2] == b.removed@.remove(k)[k2]);
    }
    if a.modified@.contains_key(k2) {
        assert(a.modified@[k2] == a.modified@.remove(k)[k2]);
        assert(b.modified@[k2] == b.modified@.remove(k)[k2]);
    }
    if a.unchanged@.contains_key(k2) {
        assert(a.unchanged@[k2] == a.unchanged@.remove(k)[k2]);
        assert(b.unchanged@[k2] == b.unchanged@.remove(k)[k2]);
    }
}

} // verus!
