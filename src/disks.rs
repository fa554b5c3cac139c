//! Physical disks: the per-sled disk diff, a set difference on disk identities.

use vstd::prelude::*;
use vstd::string::StrSliceExecFns;
use crate::sled_map::{SledMap, SledUuid};
use crate::order::{ascending_by, lemma_filter_ascending};
use crate::zones::Generation;

verus! {

/// The vendor, model and serial number that identify a physical disk.
#[derive(Clone, Debug)]
pub struct DiskIdentity {
    pub vendor: String,
    pub model: String,
    pub serial: String,
}

impl View for DiskIdentity {
    type V = (Seq<char>, Seq<char>, Seq<char>);

    open spec fn view(&self) -> (Seq<char>, Seq<char>, Seq<char>) {
        (self.vendor@, self.model@, self.serial@)
    }
}

impl DiskIdentity {
    pub fn duplicate(&self) -> (r: Self)
        ensures
            r == *self,
    {
        DiskIdentity {
            vendor: self.vendor.clone(),
            model: self.model.clone(),
            serial: self.serial.clone(),
        }
    }

    /// Whether both identify the same disk.
    pub fn same_as(&self, other: &DiskIdentity) -> (r: bool)
        ensures
            r == (self@ == other@),
    {
        self.vendor == other.vendor && self.model == other.model && self.serial == other.serial
    }
}

/// `a` comes strictly before `b` in lexicographic order of their characters, the order
/// of `str`'s `Ord`.
pub open spec fn text_lt(a: Seq<char>, b: Seq<char>) -> bool
    decreases a.len(),
{
    if a.len() == 0 {
        b.len() > 0
    } else if b.len() == 0 {
        false
    } else if a[0] != b[0] {
        a[0] < b[0]
    } else {
        text_lt(a.drop_first(), b.drop_first())
    }
}

/// `a` comes strictly before `b` in disk order: by vendor, then model, then serial.
pub open spec fn disk_lt(a: DiskIdentity, b: DiskIdentity) -> bool {
    ||| text_lt(a.vendor@, b.vendor@)
    ||| (a.vendor@ == b.vendor@ && text_lt(a.model@, b.model@))
    ||| (a.vendor@ == b.vendor@ && a.model@ == b.model@ && text_lt(a.serial@, b.serial@))
}

pub open spec fn disk_order() -> spec_fn(DiskIdentity, DiskIdentity) -> bool {
    |a: DiskIdentity, b: DiskIdentity| disk_lt(a, b)
}

/// The disks are in strictly ascending disk order, so no identity occurs twice.
pub open spec fn disks_ascending(s: Seq<DiskIdentity>) -> bool {
    ascending_by(s, disk_order())
}

/// Whether `a` comes strictly before `b` in lexicographic order of their characters.
pub fn text_before(a: &str, b: &str) -> (r: bool)
    ensures
        r == text_lt(a@, b@),
{
    let n = a.unicode_len();
    let m = b.unicode_len();
    let mut i: usize = 0;
    proof {
        assert(a@.skip(0) =~= a@);
        assert(b@.skip(0) =~= b@);
    }
    while i < n && i < m && a.get_char(i) == b.get_char(i)
        invariant
            n == a@.len(),
            m == b@.len(),
            i <= n,
            i <= m,
            text_lt(a@, b@) == text_lt(a@.skip(i as int), b@.skip(i as int)),
        decreases n - i,
    {
        proof {
            assert(a@.skip(i + 1) =~= a@.skip(i as int).drop_first());
            assert(b@.skip(i + 1) =~= b@.skip(i as int).drop_first());
        }
        i = i + 1;
    }
    if i == n {
        i < m
    } else if i == m {
        false
    } else {
        a.get_char(i) < b.get_char(i)
    }
}

impl DiskIdentity {
    /// Whether this disk comes strictly before `other` in disk order.
    pub fn comes_before(&self, other: &DiskIdentity) -> (r: bool)
        ensures
            r == disk_lt(*self, *other),
    {
        text_before(self.vendor.as_str(), other.vendor.as_str()) || (self.vendor == other.vendor
            && text_before(self.model.as_str(), other.model.as_str())) || (self.vendor
            == other.vendor && self.model == other.model && text_before(
            self.serial.as_str(),
            other.serial.as_str(),
        ))
    }
}

/// Whether the disks are in strictly ascending disk order, as the disk diff requires.
pub fn disks_in_order(v: &Vec<DiskIdentity>) -> (r: bool)
    ensures
        r == disks_ascending(v@),
{
    let mut i: usize = 1;
    if v.len() == 0 {
        return true;
    }
    while i < v.len()
        invariant
            1 <= i <= v@.len(),
            forall|p: int, q: int| 0 <= p < q < i ==> disk_lt(v@[p], v@[q]),
        decreases v@.len() - i,
    {
        if !v[i - 1].comes_before(&v[i]) {
            proof {
                assert(!disk_order()(v@[i - 1], v@[i as int]));
            }
            return false;
        }
        let mut j: usize = 0;
        while j + 1 < i
            invariant
                1 <= i < v@.len(),
                j < i,
                forall|p: int, q: int| 0 <= p < q < i ==> disk_lt(v@[p], v@[q]),
                forall|p: int| 0 <= p < j ==> disk_lt(v@[p], v@[i as int]),
                disk_lt(v@[i - 1], v@[i as int]),
            decreases i - j,
        {
            if !v[j].comes_before(&v[i]) {
                proof {
                    assert(!disk_order()(v@[j as int], v@[i as int]));
                }
                return false;
            }
            j = j + 1;
        }
        i = i + 1;
    }
    true
}

/// The list holds a disk with the identity of `d`.
pub open spec fn has_disk(s: Seq<DiskIdentity>, d: DiskIdentity) -> bool {
    exists|i: int| 0 <= i < s.len() && #[trigger] s[i]@ == d@
}

pub open spec fn disk_in(s: Seq<DiskIdentity>) -> spec_fn(DiskIdentity) -> bool {
    |d: DiskIdentity| has_disk(s, d)
}

pub open spec fn disk_not_in(s: Seq<DiskIdentity>) -> spec_fn(DiskIdentity) -> bool {
    |d: DiskIdentity| !has_disk(s, d)
}

/// The disks of the later list that the earlier one lacks.
pub open spec fn disks_added(before: Seq<DiskIdentity>, after: Seq<DiskIdentity>) -> Seq<DiskIdentity> {
    after.filter(disk_not_in(before))
}

/// The disks of the earlier list that the later one lacks.
pub open spec fn disks_removed(before: Seq<DiskIdentity>, after: Seq<DiskIdentity>) -> Seq<DiskIdentity> {
    before.filter(disk_not_in(after))
}

/// The disks of the later list that the earlier one holds too.
pub open spec fn disks_unchanged(before: Seq<DiskIdentity>, after: Seq<DiskIdentity>) -> Seq<DiskIdentity> {
    after.filter(disk_in(before))
}

/// Whether `s` holds a disk with the identity of `d`.
pub fn contains_disk(s: &Vec<DiskIdentity>, d: &DiskIdentity) -> (r: bool)
    ensures
        r == has_disk(s@, *d),
{
    let mut i: usize = 0;
    while i < s.len()
        invariant
            i <= s@.len(),
            forall|j: int| 0 <= j < i ==> s@[j]@ != d@,
        decreases s@.len() - i,
    {
        if s[i].same_as(d) {
            return true;
        }
        i = i + 1;
    }
    false
}

/// The disks of `s` that are (`keep_present`) or are not in `other`, in the order of `s`.
fn filter_disks(s: &Vec<DiskIdentity>, other: &Vec<DiskIdentity>, keep_present: bool) -> (r: Vec<DiskIdentity>)
    requires
        disks_ascending(s@),
    ensures
        disks_ascending(r@),
        r@ == if keep_present {
            s@.filter(disk_in(other@))
        } else {
            s@.filter(disk_not_in(other@))
        },
{
    broadcast use vstd::seq_lib::group_filter_ensures;

    let ghost p = if keep_present {
        disk_in(other@)
    } else {
        disk_not_in(other@)
    };
    let mut r: Vec<DiskIdentity> = Vec::new();
    proof {
        assert(s@.take(0).filter(p).len() == 0);
    }
    let mut i: usize = 0;
    while i < s.len()
        invariant
            i <= s@.len(),
            p == (if keep_present {
                disk_in(other@)
            } else {
                disk_not_in(other@)
            }),
            r@ =~= s@.take(i as int).filter(p),
        decreases s@.len() - i,
    {
        proof {
            assert(s@.take(i + 1) =~= s@.take(i as int).push(s@[i as int]));
            s@.take(i as int).lemma_filter_push(s@[i as int], p);
        }
        if contains_disk(other, &s[i]) == keep_present {
            r.push(s[i].duplicate());
        }
        i = i + 1;
    }
    proof {
        assert(s@.take(i as int) =~= s@);
        lemma_filter_ascending(s@, p, disk_order());
    }
    r
}

/// The disks that a blueprint places on one sled.
#[derive(Debug)]
pub struct BlueprintPhysicalDisksConfig {
    pub generation: Generation,
    pub disks: Vec<DiskIdentity>,
}

/// The disks that an inventory collection observed on one sled.
#[derive(Debug)]
pub struct CollectionPhysicalDisksConfig {
    pub disks: Vec<DiskIdentity>,
}

/// The disks of one sled in the earlier snapshot, which is a blueprint or a collection.
#[derive(Debug)]
pub enum BlueprintOrCollectionDisksConfig {
    Collection(CollectionPhysicalDisksConfig),
    Blueprint(BlueprintPhysicalDisksConfig),
}

impl BlueprintOrCollectionDisksConfig {
    /// The generation: a collection has none.
    pub open spec fn spec_generation(&self) -> Option<Generation> {
        match self {
            BlueprintOrCollectionDisksConfig::Collection(_) => None,
            BlueprintOrCollectionDisksConfig::Blueprint(c) => Some(c.generation),
        }
    }

    pub open spec fn spec_disks(&self) -> Seq<DiskIdentity> {
        match self {
            BlueprintOrCollectionDisksConfig::Collection(c) => c.disks@,
            BlueprintOrCollectionDisksConfig::Blueprint(c) => c.disks@,
        }
    }

    pub fn generation(&self) -> (r: Option<Generation>)
        ensures
            r == self.spec_generation(),
    {
        match self {
            BlueprintOrCollectionDisksConfig::Collection(_) => None,
            BlueprintOrCollectionDisksConfig::Blueprint(c) => Some(c.generation),
        }
    }

    pub fn disks(&self) -> (r: &Vec<DiskIdentity>)
        ensures
            r@ == self.spec_disks(),
    {
        match self {
            BlueprintOrCollectionDisksConfig::Collection(c) => &c.disks,
            BlueprintOrCollectionDisksConfig::Blueprint(c) => &c.disks,
        }
    }
}

/// Added, removed or unchanged disks of one sled.
#[derive(Debug)]
pub struct DiffPhysicalDisksDetails {
    /// Disks that an inventory collection observed have no generation.
    pub before_generation: Option<Generation>,
    /// Disks of a sled that the later snapshot lacks have no later generation.
    pub after_generation: Option<Generation>,
    pub disks: Vec<DiskIdentity>,
}

/// All disks across all sleds, by what happened to them.
#[derive(Debug)]
pub struct BpDiffPhysicalDisks {
    pub added: SledMap<DiffPhysicalDisksDetails>,
    pub removed: SledMap<DiffPhysicalDisksDetails>,
    pub unchanged: SledMap<DiffPhysicalDisksDetails>,
}

pub open spec fn disks_before_of(before: SledMap<BlueprintOrCollectionDisksConfig>, k: SledUuid) -> Seq<DiskIdentity> {
    if before@.contains_key(k) {
        before@[k].spec_disks()
    } else {
        Seq::empty()
    }
}

pub open spec fn disks_after_of(after: SledMap<BlueprintPhysicalDisksConfig>, k: SledUuid) -> Seq<DiskIdentity> {
    if after@.contains_key(k) {
        after@[k].disks@
    } else {
        Seq::empty()
    }
}

pub open spec fn disk_generation_before(before: SledMap<BlueprintOrCollectionDisksConfig>, k: SledUuid) -> Option<Generation> {
    if before@.contains_key(k) {
        before@[k].spec_generation()
    } else {
        None
    }
}

pub open spec fn disk_generation_after(after: SledMap<BlueprintPhysicalDisksConfig>, k: SledUuid) -> Option<Generation> {
    if after@.contains_key(k) {
        Some(after@[k].generation)
    } else {
        None
    }
}

pub open spec fn disk_details_are(d: DiffPhysicalDisksDetails, gb: Option<Generation>, ga: Option<Generation>, expected: Seq<DiskIdentity>) -> bool {
    d.before_generation == gb && d.after_generation == ga && d.disks@ == expected && disks_ascending(
        d.disks@,
    )
}

/// Every sled's disk list is in strictly ascending disk order.
pub open spec fn disks_before_wf(m: SledMap<BlueprintOrCollectionDisksConfig>) -> bool {
    m.wf() && forall|k: SledUuid| #[trigger] m@.contains_key(k) ==> disks_ascending(m@[k].spec_disks())
}

/// Every sled's disk list is in strictly ascending disk order.
pub open spec fn disks_after_wf(m: SledMap<BlueprintPhysicalDisksConfig>) -> bool {
    m.wf() && forall|k: SledUuid| #[trigger] m@.contains_key(k) ==> disks_ascending(m@[k].disks@)
}

/// Only the earlier snapshot holds disks for sled `k`.
pub open spec fn disks_only_before(before: SledMap<BlueprintOrCollectionDisksConfig>, after: SledMap<BlueprintPhysicalDisksConfig>, k: SledUuid) -> bool {
    before@.contains_key(k) && !after@.contains_key(k)
}

impl BpDiffPhysicalDisks {
    pub open spec fn wf(&self) -> bool {
        self.added.wf() && self.removed.wf() && self.unchanged.wf()
    }

    /// Each bucket lists its disks in strictly ascending disk order.
    pub open spec fn ordered(&self) -> bool {
        &&& forall|k: SledUuid| #[trigger] self.added@.contains_key(k) ==> disks_ascending(self.added@[k].disks@)
        &&& forall|k: SledUuid| #[trigger] self.removed@.contains_key(k) ==> disks_ascending(self.removed@[k].disks@)
        &&& forall|k: SledUuid| #[trigger] self.unchanged@.contains_key(k) ==> disks_ascending(self.unchanged@[k].disks@)
    }

    pub open spec fn lacks(&self, k: SledUuid) -> bool {
        &&& !self.added@.contains_key(k)
        &&& !self.removed@.contains_key(k)
        &&& !self.unchanged@.contains_key(k)
    }

    /// The buckets of sled `k` are those of the disk lists `bs` (earlier) and `az`
    /// (later), with the generations `gb` and `ga`; a bucket that would be empty is
    /// left out, but where only the earlier snapshot holds the sled (`before_only`) all
    /// its disks, even none, are removed.
    pub open spec fn sled_is(&self, k: SledUuid, bs: Seq<DiskIdentity>, az: Seq<DiskIdentity>, gb: Option<Generation>, ga: Option<Generation>, before_only: bool) -> bool {
        &&& self.added@.contains_key(k) <==> disks_added(bs, az).len() > 0
        &&& self.added@.contains_key(k) ==> disk_details_are(self.added@[k], gb, ga, disks_added(bs, az))
        &&& self.removed@.contains_key(k) <==> (disks_removed(bs, az).len() > 0 || before_only)
        &&& self.removed@.contains_key(k) ==> disk_details_are(self.removed@[k], gb, ga, disks_removed(bs, az))
        &&& self.unchanged@.contains_key(k) <==> disks_unchanged(bs, az).len() > 0
        &&& self.unchanged@.contains_key(k) ==> disk_details_are(self.unchanged@[k], gb, ga, disks_unchanged(bs, az))
    }

    /// The disk diff of two snapshots: for each sled, its disks by what happened to them.
    pub open spec fn is_diff_of(&self, before: SledMap<BlueprintOrCollectionDisksConfig>, after: SledMap<BlueprintPhysicalDisksConfig>) -> bool {
        forall|k: SledUuid| #[trigger]
            self.sled_is(
                k,
                disks_before_of(before, k),
                disks_after_of(after, k),
                disk_generation_before(before, k),
                disk_generation_after(after, k),
                disks_only_before(before, after, k),
            )
    }

    fn record_sled(&mut self, k: SledUuid, gb: Option<Generation>, ga: Option<Generation>, bs: &Vec<DiskIdentity>, az: &Vec<DiskIdentity>, before_only: bool)
        requires
            old(self).wf(),
            old(self).lacks(k),
            disks_ascending(bs@),
            disks_ascending(az@),
        ensures
            final(self).wf(),
            final(self).sled_is(k, bs@, az@, gb, ga, before_only),
            final(self).added@.remove(k) == old(self).added@.remove(k),
            final(self).removed@.remove(k) == old(self).removed@.remove(k),
            final(self).unchanged@.remove(k) == old(self).unchanged@.remove(k),
    {
        let added = filter_disks(az, bs, false);
        let removed = filter_disks(bs, az, false);
        let unchanged = filter_disks(az, bs, true);
        if added.len() > 0 {
            self.added.insert(
                k,
                DiffPhysicalDisksDetails { before_generation: gb, after_generation: ga, disks: added },
            );
        }
        if removed.len() > 0 || before_only {
            self.removed.insert(
                k,
                DiffPhysicalDisksDetails { before_generation: gb, after_generation: ga, disks: removed },
            );
        }
        if unchanged.len() > 0 {
            self.unchanged.insert(
                k,
                DiffPhysicalDisksDetails {
                    before_generation: gb,
                    after_generation: ga,
                    disks: unchanged,
                },
            );
        }
        proof {
            assert(self.added@.remove(k) =~= old(self).added@.remove(k));
            assert(self.removed@.remove(k) =~= old(self).removed@.remove(k));
            assert(self.unchanged@.remove(k) =~= old(self).unchanged@.remove(k));
        }
    }

    /// Compares the disks of the earlier snapshot `before` with those of the later one
    /// `after`, sled by sled.
    pub fn new(before: SledMap<BlueprintOrCollectionDisksConfig>, after: SledMap<BlueprintPhysicalDisksConfig>) -> (r: Self)
        requires
            disks_before_wf(before),
            disks_after_wf(after),
        ensures
            r.wf(),
            r.ordered(),
            r.is_diff_of(before, after),
    {
        let mut diffs = BpDiffPhysicalDisks {
            added: SledMap::new(),
            removed: SledMap::new(),
            unchanged: SledMap::new(),
        };
        let mut i: usize = 0;
        while i < before.entries.len()
            invariant
                i <= before.entries@.len(),
                disks_before_wf(before),
                disks_after_wf(after),
                diffs.wf(),
                forall|k: SledUuid|
                    #![trigger diffs.lacks(k)]
                    #![trigger diffs.sled_is(k, disks_before_of(before, k), disks_after_of(after, k), disk_generation_before(before, k), disk_generation_after(after, k), disks_only_before(before, after, k))]
                    if exists|j: int| 0 <= j < i && #[trigger] before.entries@[j].0 == k {
                        diffs.sled_is(
                            k,
                            disks_before_of(before, k),
                            disks_after_of(after, k),
                            disk_generation_before(before, k),
                            disk_generation_after(after, k),
                            disks_only_before(before, after, k),
                        )
                    } else {
                        diffs.lacks(k)
                    },
            decreases before.entries@.len() - i,
        {
            let k = before.entries[i].0;
            let cfg = &before.entries[i].1;
            proof {
                before.lemma_entry(i as int);
                assert(!exists|j: int| 0 <= j < i && #[trigger] before.entries@[j].0 == k);
            }
            let empty: Vec<DiskIdentity> = Vec::new();
            let ghost old_diffs = diffs;
            match after.get(k) {
                Some(a) => diffs.record_sled(k, cfg.generation(), Some(a.generation), cfg.disks(), &a.disks, false),
                None => diffs.record_sled(k, cfg.generation(), None, cfg.disks(), &empty, true),
            }
            proof {
                assert forall|k2: SledUuid|
                    #![trigger diffs.lacks(k2)]
                    #![trigger diffs.sled_is(k2, disks_before_of(before, k2), disks_after_of(after, k2), disk_generation_before(before, k2), disk_generation_after(after, k2), disks_only_before(before, after, k2))]
                    if exists|j: int| 0 <= j < i + 1 && #[trigger] before.entries@[j].0 == k2 {
                        diffs.sled_is(
                            k2,
                            disks_before_of(before, k2),
                            disks_after_of(after, k2),
                            disk_generation_before(before, k2),
                            disk_generation_after(after, k2),
                            disks_only_before(before, after, k2),
                        )
                    } else {
                        diffs.lacks(k2)
                    } by {
                    if k2 != k {
                        lemma_disks_same_elsewhere(
                            diffs,
                            old_diffs,
                            k,
                            k2,
                            disks_before_of(before, k2),
                            disks_after_of(after, k2),
                            disk_generation_before(before, k2),
                            disk_generation_after(after, k2),
                            disks_only_before(before, after, k2),
                        );
                        if exists|j: int| 0 <= j < i + 1 && #[trigger] before.entries@[j].0 == k2 {
                            let j = choose|j: int| 0 <= j < i + 1 && #[trigger] before.entries@[j].0 == k2;
                            assert(j < i);
                        }
                    } else {
                        assert(before.entries@[i as int].0 == k2);
                    }
                }
            }
            i = i + 1;
        }
        proof {
            assert forall|k: SledUuid| #[trigger] before@.contains_key(k) == (exists|j: int| 0 <= j < before.entries@.len() && #[trigger] before.entries@[j].0 == k) by {}
        }
        let mut i: usize = 0;
        while i < after.entries.len()
            invariant
                i <= after.entries@.len(),
                disks_before_wf(before),
                disks_after_wf(after),
                diffs.wf(),
                forall|k: SledUuid|
                    #![trigger diffs.lacks(k)]
                    #![trigger diffs.sled_is(k, disks_before_of(before, k), disks_after_of(after, k), disk_generation_before(before, k), disk_generation_after(after, k), disks_only_before(before, after, k))]
                    if before@.contains_key(k) || exists|j: int| 0 <= j < i && #[trigger] after.entries@[j].0 == k {
                        diffs.sled_is(
                            k,
                            disks_before_of(before, k),
                            disks_after_of(after, k),
                            disk_generation_before(before, k),
                            disk_generation_after(after, k),
                            disks_only_before(before, after, k),
                        )
                    } else {
                        diffs.lacks(k)
                    },
            decreases after.entries@.len() - i,
        {
            let k = after.entries[i].0;
            let cfg = &after.entries[i].1;
            proof {
                after.lemma_entry(i as int);
                assert(!exists|j: int| 0 <= j < i && #[trigger] after.entries@[j].0 == k);
            }
            if !before.contains_key(k) {
                let empty: Vec<DiskIdentity> = Vec::new();
                let ghost old_diffs = diffs;
                diffs.record_sled(k, None, Some(cfg.generation), &empty, &cfg.disks, false);
                proof {
                    assert forall|k2: SledUuid|
                        #![trigger diffs.lacks(k2)]
                        #![trigger diffs.sled_is(k2, disks_before_of(before, k2), disks_after_of(after, k2), disk_generation_before(before, k2), disk_generation_after(after, k2), disks_only_before(before, after, k2))]
                        if before@.contains_key(k2) || exists|j: int| 0 <= j < i + 1 && #[trigger] after.entries@[j].0 == k2 {
                            diffs.sled_is(
                                k2,
                                disks_before_of(before, k2),
                                disks_after_of(after, k2),
                                disk_generation_before(before, k2),
                                disk_generation_after(after, k2),
                                disks_only_before(before, after, k2),
                            )
                        } else {
                            diffs.lacks(k2)
                        } by {
                        if k2 != k {
                            lemma_disks_same_elsewhere(
                                diffs,
                                old_diffs,
                                k,
                                k2,
                                disks_before_of(before, k2),
                                disks_after_of(after, k2),
                                disk_generation_before(before, k2),
                                disk_generation_after(after, k2),
                                disks_only_before(before, after, k2),
                            );
                            if exists|j: int| 0 <= j < i + 1 && #[trigger] after.entries@[j].0 == k2 {
                                let j = choose|j: int| 0 <= j < i + 1 && #[trigger] after.entries@[j].0 == k2;
                                assert(j < i);
                            }
                        } else {
                            assert(after.entries@[i as int].0 == k2);
                        }
                    }
                }
            } else {
                proof {
                    assert forall|k2: SledUuid|
                        #![trigger diffs.lacks(k2)]
                        #![trigger diffs.sled_is(k2, disks_before_of(before, k2), disks_after_of(after, k2), disk_generation_before(before, k2), disk_generation_after(after, k2), disks_only_before(before, after, k2))]
                        if before@.contains_key(k2) || exists|j: int| 0 <= j < i + 1 && #[trigger] after.entries@[j].0 == k2 {
                            diffs.sled_is(
                                k2,
                                disks_before_of(before, k2),
                                disks_after_of(after, k2),
                                disk_generation_before(before, k2),
                                disk_generation_after(after, k2),
                                disks_only_before(before, after, k2),
                            )
                        } else {
                            diffs.lacks(k2)
                        } by {
                        if exists|j: int| 0 <= j < i + 1 && #[trigger] after.entries@[j].0 == k2 {
                            let j = choose|j: int| 0 <= j < i + 1 && #[trigger] after.entries@[j].0 == k2;
                            if j == i {
                                assert(before@.contains_key(k2));
                            }
                        }
                    }
                }
            }
            i = i + 1;
        }
        proof {
            assert forall|k: SledUuid|
                #[trigger] diffs.sled_is(
                    k,
                    disks_before_of(before, k),
                    disks_after_of(after, k),
                    disk_generation_before(before, k),
                    disk_generation_after(after, k),
                    disks_only_before(before, after, k),
                ) by {
                if !before@.contains_key(k) && !after@.contains_key(k) {
                    if exists|j: int| 0 <= j < i && #[trigger] after.entries@[j].0 == k {
                        let j = choose|j: int| 0 <= j < i && #[trigger] after.entries@[j].0 == k;
                        after.lemma_entry(j);
                    }
                    assert(diffs.lacks(k));
                    lemma_disks_empty_sled(diffs, k);
                }
            }
        }
        proof {
            assert forall|k: SledUuid| #[trigger] diffs.added@.contains_key(k) implies disks_ascending(diffs.added@[k].disks@) by {
                assert(diffs.sled_is(
                    k,
                    disks_before_of(before, k),
                    disks_after_of(after, k),
                    disk_generation_before(before, k),
                    disk_generation_after(after, k),
                    disks_only_before(before, after, k),
                ));
            }
            assert forall|k: SledUuid| #[trigger] diffs.removed@.contains_key(k) implies disks_ascending(diffs.removed@[k].disks@) by {
                assert(diffs.sled_is(
                    k,
                    disks_before_of(before, k),
                    disks_after_of(after, k),
                    disk_generation_before(before, k),
                    disk_generation_after(after, k),
                    disks_only_before(before, after, k),
                ));
            }
            assert forall|k: SledUuid| #[trigger] diffs.unchanged@.contains_key(k) implies disks_ascending(diffs.unchanged@[k].disks@) by {
                assert(diffs.sled_is(
                    k,
                    disks_before_of(before, k),
                    disks_after_of(after, k),
                    disk_generation_before(before, k),
                    disk_generation_after(after, k),
                    disks_only_before(before, after, k),
                ));
            }
        }
        diffs
    }
}

/// A sled that neither snapshot holds has no disks in any bucket.
proof fn lemma_disks_empty_sled(d: BpDiffPhysicalDisks, k: SledUuid)
    requires
        d.lacks(k),
    ensures
        d.sled_is(k, Seq::empty(), Seq::empty(), None, None, false),
{
    broadcast use vstd::seq_lib::group_filter_ensures;

    let e = Seq::<DiskIdentity>::empty();
    assert(e.filter(disk_in(e)).len() == 0);
    assert(e.filter(disk_not_in(e)).len() == 0);
}

/// Two disk diffs that differ at most at sled `k` agree on every other sled.
proof fn lemma_disks_same_elsewhere(a: BpDiffPhysicalDisks, b: BpDiffPhysicalDisks, k: SledUuid, k2: SledUuid, bs: Seq<DiskIdentity>, az: Seq<DiskIdentity>, gb: Option<Generation>, ga: Option<Generation>, before_only: bool)
    requires
        k != k2,
        a.added@.remove(k) == b.added@.remove(k),
        a.removed@.remove(k) == b.removed@.remove(k),
        a.unchanged@.remove(k) == b.unchanged@.remove(k),
    ensures
        a.lacks(k2) == b.lacks(k2),
        a.sled_is(k2, bs, az, gb, ga, before_only) == b.sled_is(k2, bs, az, gb, ga, before_only),
{
    assert(a.added@.remove(k).contains_key(k2) == a.added@.contains_key(k2));
    assert(b.added@.remove(k).contains_key(k2) == b.added@.contains_key(k2));
    assert(a.removed@.remove(k).contains_key(k2) == a.removed@.contains_key(k2));
    assert(b.removed@.remove(k).contains_key(k2) == b.removed@.contains_key(k2));
    assert(a.unchanged@.remove(k).contains_key(k2) == a.unchanged@.contains_key(k2));
    assert(b.unchanged@.remove(k).contains_key(k2) == b.unchanged@.contains_key(k2));
    if a.added@.contains_key(k2) {
        assert(a.added@[k2] == a.added@.remove(k)[k2]);
        assert(b.added@[k2] == b.added@.remove(k)[k2]);
    }
    if a.removed@.contains_key(k2) {
        assert(a.removed@[k2] == a.removed@.remove(k)[k2]);
        assert(b.removed@[k2] == b.removed@.remove(k)[k2]);
    }
    if a.unchanged@.contains_key(k2) {
        assert(a.unchanged@[k2] == a.unchanged@.remove(k)[k2]);
        assert(b.unchanged@[k2] == b.unchanged@.remove(k)[k2]);
    }
}

} // verus!
