//! The report of a diff, as structured rows: per sled and category one table whose
//! rows come in the order unchanged, removed, modified, added.

use vstd::prelude::*;
use crate::datasets::{BlueprintDatasetConfigForDiff, BpDiffDatasets, ModifiedDataset, dataset_field_texts, texts};
use crate::disks::{BpDiffPhysicalDisks, DiskIdentity};
use crate::sled_map::{SledMap, SledUuid};
use crate::text::{ipv6_text, ipv6_to_string, string_of, uuid_text, uuid_to_string};
use crate::zones::{BlueprintZoneConfig, BpDiffZones, Generation, ModifiedZone, disposition_text, kind_report};

verus! {

/// What happened to the thing that a row shows.
#[derive(Clone, Copy, Debug, PartialEq, Eq, Structural)]
pub enum BpDiffState {
    Unchanged,
    Removed,
    Modified,
    Added,
}

/// One cell of a row: a value, or a value that changed.
#[derive(Debug)]
pub enum BpSledSubtableColumn {
    Value(String),
    Diff { before: String, after: String },
}

/// One row of a sled's table.
#[derive(Debug)]
pub struct BpSledSubtableRow {
    pub state: BpDiffState,
    pub columns: Vec<BpSledSubtableColumn>,
}

/// The table of one category on one sled, with the category's generations there.
#[derive(Debug)]
pub struct BpSledSubtable {
    pub generation_before: Option<Generation>,
    pub generation_after: Option<Generation>,
    pub rows: Vec<BpSledSubtableRow>,
}

/// The text of a cell: its value, and the later value where it changed.
pub open spec fn column_text(c: BpSledSubtableColumn) -> (Seq<char>, Option<Seq<char>>) {
    match c {
        BpSledSubtableColumn::Value(s) => (s@, None),
        BpSledSubtableColumn::Diff { before, after } => (before@, Some(after@)),
    }
}

pub open spec fn row_text(r: BpSledSubtableRow) -> (BpDiffState, Seq<(Seq<char>, Option<Seq<char>>)>) {
    (r.state, r.columns@.map_values(|c: BpSledSubtableColumn| column_text(c)))
}

pub open spec fn rows_text(rs: Seq<BpSledSubtableRow>) -> Seq<(BpDiffState, Seq<(Seq<char>, Option<Seq<char>>)>)> {
    rs.map_values(|r: BpSledSubtableRow| row_text(r))
}

pub open spec fn plain(s: Seq<char>) -> (Seq<char>, Option<Seq<char>>) {
    (s, None)
}

/// The row of a zone: kind, id, disposition, underlay IP.
pub open spec fn zone_row_text(state: BpDiffState, z: BlueprintZoneConfig) -> (BpDiffState, Seq<(Seq<char>, Option<Seq<char>>)>) {
    (
        state,
        seq![
            plain(kind_report(z.kind)),
            plain(uuid_text(z.id)),
            plain(disposition_text(z.disposition)),
            plain(ipv6_text(z.underlay_ip)),
        ],
    )
}

/// The row of a modified zone: as for any zone, with the disposition's change.
pub open spec fn modified_zone_row_text(m: ModifiedZone) -> (BpDiffState, Seq<(Seq<char>, Option<Seq<char>>)>) {
    (
        BpDiffState::Modified,
        seq![
            plain(kind_report(m.zone.kind)),
            plain(uuid_text(m.zone.id)),
            (disposition_text(m.prior_disposition), Some(disposition_text(m.zone.disposition))),
            plain(ipv6_text(m.zone.underlay_ip)),
        ],
    )
}

/// The row of a disk: vendor, model, serial.
pub open spec fn disk_row_text(state: BpDiffState, d: DiskIdentity) -> (BpDiffState, Seq<(Seq<char>, Option<Seq<char>>)>) {
    (state, seq![plain(d.vendor@), plain(d.model@), plain(d.serial@)])
}

/// The row of a dataset: its displayable fields.
pub open spec fn dataset_row_text(state: BpDiffState, d: BlueprintDatasetConfigForDiff) -> (BpDiffState, Seq<(Seq<char>, Option<Seq<char>>)>) {
    (state, dataset_field_texts(d).map_values(|s: Seq<char>| plain(s)))
}

/// The row of a modified dataset: each field compared with the field at the same
/// place, and marked as changed where the two differ.
pub open spec fn modified_dataset_row_text(m: ModifiedDataset) -> (BpDiffState, Seq<(Seq<char>, Option<Seq<char>>)>) {
    let b = dataset_field_texts(m.before);
    let a = dataset_field_texts(m.after);
    (
        BpDiffState::Modified,
        Seq::new(
            b.len(),
            |i: int|
                if b[i] != a[i] {
                    (b[i], Some(a[i]))
                } else {
                    plain(b[i])
                },
        ),
    )
}

fn value(s: String) -> (r: BpSledSubtableColumn)
    ensures
        column_text(r) == plain(s@),
{
    BpSledSubtableColumn::Value(s)
}

/// The rows of the zones `zs`, in their order.
pub fn zone_rows(zs: &Vec<BlueprintZoneConfig>, state: BpDiffState, rows: &mut Vec<BpSledSubtableRow>)
    ensures
        rows_text(final(rows)@) == rows_text(old(rows)@) + zs@.map_values(
            |z: BlueprintZoneConfig| zone_row_text(state, z),
        ),
{
    let ghost start = rows_text(rows@);
    let mut i: usize = 0;
    while i < zs.len()
        invariant
            i <= zs@.len(),
            start == rows_text(old(rows)@),
            rows_text(rows@) =~= start + zs@.take(i as int).map_values(
                |z: BlueprintZoneConfig| zone_row_text(state, z),
            ),
        decreases zs@.len() - i,
    {
        let z = &zs[i];
        let mut columns: Vec<BpSledSubtableColumn> = Vec::new();
        columns.push(value(string_of(z.kind.report_str())));
        columns.push(value(uuid_to_string(z.id)));
        columns.push(value(string_of(z.disposition.as_str())));
        columns.push(value(ipv6_to_string(z.underlay_ip)));
        let row = BpSledSubtableRow { state, columns };
        proof {
            assert(row_text(row).1 =~= zone_row_text(state, *z).1);
            assert(rows_text(rows@.push(row)) =~= rows_text(rows@).push(zone_row_text(state, *z)));
            assert(zs@.take(i + 1) =~= zs@.take(i as int).push(*z));
        }
        rows.push(row);
        i = i + 1;
    }
    proof {
        assert(zs@.take(zs@.len() as int) =~= zs@);
    }
}

/// The rows of the modified zones `ms`, in their order.
pub fn modified_zone_rows(ms: &Vec<ModifiedZone>, rows: &mut Vec<BpSledSubtableRow>)
    ensures
        rows_text(final(rows)@) == rows_text(old(rows)@) + ms@.map_values(
            |m: ModifiedZone| modified_zone_row_text(m),
        ),
{
    let ghost start = rows_text(rows@);
    let mut i: usize = 0;
    while i < ms.len()
        invariant
            i <= ms@.len(),
            start == rows_text(old(rows)@),
            rows_text(rows@) =~= start + ms@.take(i as int).map_values(
                |m: ModifiedZone| modified_zone_row_text(m),
            ),
        decreases ms@.len() - i,
    {
        let m = &ms[i];
        let mut columns: Vec<BpSledSubtableColumn> = Vec::new();
        columns.push(value(string_of(m.zone.kind.report_str())));
        columns.push(value(uuid_to_string(m.zone.id)));
        columns.push(
            BpSledSubtableColumn::Diff {
                before: string_of(m.prior_disposition.as_str()),
                after: string_of(m.zone.disposition.as_str()),
            },
        );
        columns.push(value(ipv6_to_string(m.zone.underlay_ip)));
        let row = BpSledSubtableRow { state: BpDiffState::Modified, columns };
        proof {
            assert(row_text(row).1 =~= modified_zone_row_text(*m).1);
            assert(rows_text(rows@.push(row)) =~= rows_text(rows@).push(modified_zone_row_text(*m)));
            assert(ms@.take(i + 1) =~= ms@.take(i as int).push(*m));
        }
        rows.push(row);
        i = i + 1;
    }
    proof {
        assert(ms@.take(ms@.len() as int) =~= ms@);
    }
}

/// The rows of the disks `ds`, in their order.
pub fn disk_rows(ds: &Vec<DiskIdentity>, state: BpDiffState, rows: &mut Vec<BpSledSubtableRow>)
    ensures
        rows_text(final(rows)@) == rows_text(old(rows)@) + ds@.map_values(
            |d: DiskIdentity| disk_row_text(state, d),
        ),
{
    let ghost start = rows_text(rows@);
    let mut i: usize = 0;
    while i < ds.len()
        invariant
            i <= ds@.len(),
            start == rows_text(old(rows)@),
            rows_text(rows@) =~= start + ds@.take(i as int).map_values(
                |d: DiskIdentity| disk_row_text(state, d),
            ),
        decreases ds@.len() - i,
    {
        let d = &ds[i];
        let mut columns: Vec<BpSledSubtableColumn> = Vec::new();
        columns.push(value(d.vendor.clone()));
        columns.push(value(d.model.clone()));
        columns.push(value(d.serial.clone()));
        let row = BpSledSubtableRow { state, columns };
        proof {
            assert(row_text(row).1 =~= disk_row_text(state, *d).1);
            assert(rows_text(rows@.push(row)) =~= rows_text(rows@).push(disk_row_text(state, *d)));
            assert(ds@.take(i + 1) =~= ds@.take(i as int).push(*d));
        }
        rows.push(row);
        i = i + 1;
    }
    proof {
        assert(ds@.take(ds@.len() as int) =~= ds@);
    }
}

/// The row of one dataset.
fn dataset_row(d: &BlueprintDatasetConfigForDiff, state: BpDiffState) -> (r: BpSledSubtableRow)
    ensures
        row_text(r) == dataset_row_text(state, *d),
{
    let strings = d.as_strings();
    let mut columns: Vec<BpSledSubtableColumn> = Vec::new();
    let mut i: usize = 0;
    while i < strings.len()
        invariant
            i <= strings@.len(),
            texts(strings@) == dataset_field_texts(*d),
            columns@.map_values(|c: BpSledSubtableColumn| column_text(c)) =~= dataset_field_texts(
                *d,
            ).take(i as int).map_values(|s: Seq<char>| plain(s)),
        decreases strings@.len() - i,
    {
        proof {
            assert(texts(strings@)[i as int] == strings@[i as int]@);
        }
        let ghost prev = columns@;
        columns.push(value(strings[i].clone()));
        proof {
            let f = |c: BpSledSubtableColumn| column_text(c);
            assert(columns@.map_values(f) =~= prev.map_values(f).push(plain(dataset_field_texts(*d)[i as int])));
            assert(dataset_field_texts(*d).take(i + 1) =~= dataset_field_texts(*d).take(i as int).push(dataset_field_texts(*d)[i as int]));
        }
        i = i + 1;
    }
    proof {
        assert(dataset_field_texts(*d).take(i as int) =~= dataset_field_texts(*d));
    }
    let r = BpSledSubtableRow { state, columns };
    proof {
        assert(row_text(r).1 =~= dataset_row_text(state, *d).1);
    }
    r
}

/// The rows of the datasets `ds`, in their order.
pub fn dataset_rows(ds: &Vec<BlueprintDatasetConfigForDiff>, state: BpDiffState, rows: &mut Vec<BpSledSubtableRow>)
    ensures
        rows_text(final(rows)@) == rows_text(old(rows)@) + ds@.map_values(
            |d: BlueprintDatasetConfigForDiff| dataset_row_text(state, d),
        ),
{
    let ghost start = rows_text(rows@);
    let mut i: usize = 0;
    while i < ds.len()
        invariant
            i <= ds@.len(),
            start == rows_text(old(rows)@),
            rows_text(rows@) =~= start + ds@.take(i as int).map_values(
                |d: BlueprintDatasetConfigForDiff| dataset_row_text(state, d),
            ),
        decreases ds@.len() - i,
    {
        let row = dataset_row(&ds[i], state);
        proof {
            assert(rows_text(rows@.push(row)) =~= rows_text(rows@).push(dataset_row_text(state, ds@[i as int])));
            assert(ds@.take(i + 1) =~= ds@.take(i as int).push(ds@[i as int]));
        }
        rows.push(row);
        i = i + 1;
    }
    proof {
        assert(ds@.take(ds@.len() as int) =~= ds@);
    }
}

impl ModifiedDataset {
    /// The row of the change: each field against the field at the same place.
    pub fn row(&self) -> (r: BpSledSubtableRow)
        ensures
            row_text(r) == modified_dataset_row_text(*self),
    {
        let before = self.before.as_strings();
        let after = self.after.as_strings();
        let ghost b = dataset_field_texts(self.before);
        let ghost a = dataset_field_texts(self.after);
        let mut columns: Vec<BpSledSubtableColumn> = Vec::new();
        proof {
            assert(b.len() == 6);
            assert(texts(before@).len() == before@.len());
            assert(texts(after@).len() == after@.len());
        }
        let mut i: usize = 0;
        while i < before.len()
            invariant
                i <= before@.len(),
                texts(before@) == b,
                texts(after@) == a,
                before@.len() == 6,
                after@.len() == 6,
                b == dataset_field_texts(self.before),
                a == dataset_field_texts(self.after),
                columns@.map_values(|c: BpSledSubtableColumn| column_text(c)) =~= modified_dataset_row_text(
                    *self,
                ).1.take(i as int),
            decreases before@.len() - i,
        {
            proof {
                assert(texts(before@)[i as int] == before@[i as int]@);
                assert(texts(after@)[i as int] == after@[i as int]@);
            }
            let column = if before[i] != after[i] {
                BpSledSubtableColumn::Diff { before: before[i].clone(), after: after[i].clone() }
            } else {
                BpSledSubtableColumn::Value(before[i].clone())
            };
            let ghost prev = columns@;
            columns.push(column);
            proof {
                let f = |c: BpSledSubtableColumn| column_text(c);
                let full = modified_dataset_row_text(*self).1;
                assert(columns@.map_values(f) =~= prev.map_values(f).push(full[i as int]));
                assert(full.take(i + 1) =~= full.take(i as int).push(full[i as int]));
            }
            i = i + 1;
        }
        proof {
            assert(modified_dataset_row_text(*self).1.take(i as int) =~= modified_dataset_row_text(*self).1);
        }
        let r = BpSledSubtableRow { state: BpDiffState::Modified, columns };
        proof {
            assert(row_text(r).1 =~= modified_dataset_row_text(*self).1);
        }
        r
    }
}

pub type RowText = (BpDiffState, Seq<(Seq<char>, Option<Seq<char>>)>);

impl BpDiffZones {
    /// The rows of sled `k`'s zone table: unchanged, removed, modified, then added.
    pub open spec fn rows_for(&self, k: SledUuid) -> Seq<RowText> {
        (if self.unchanged@.contains_key(k) {
            self.unchanged@[k].zones@.map_values(|z: BlueprintZoneConfig| zone_row_text(BpDiffState::Unchanged, z))
        } else {
            Seq::empty()
        }) + (if self.removed@.contains_key(k) {
            self.removed@[k].zones@.map_values(|z: BlueprintZoneConfig| zone_row_text(BpDiffState::Removed, z))
        } else {
            Seq::empty()
        }) + (if self.modified@.contains_key(k) {
            self.modified@[k].zones@.map_values(|m: ModifiedZone| modified_zone_row_text(m))
        } else {
            Seq::empty()
        }) + (if self.added@.contains_key(k) {
            self.added@[k].zones@.map_values(|z: BlueprintZoneConfig| zone_row_text(BpDiffState::Added, z))
        } else {
            Seq::empty()
        })
    }

    /// The generations that sled `k`'s zone table shows: those of its last bucket in
    /// the order unchanged, removed, modified, added.
    pub open spec fn generations_for(&self, k: SledUuid) -> (Option<Generation>, Option<Generation>) {
        if self.added@.contains_key(k) {
            (self.added@[k].generation_before, self.added@[k].generation_after)
        } else if self.modified@.contains_key(k) {
            (self.modified@[k].generation_before, self.modified@[k].generation_after)
        } else if self.removed@.contains_key(k) {
            (self.removed@[k].generation_before, self.removed@[k].generation_after)
        } else if self.unchanged@.contains_key(k) {
            (self.unchanged@[k].generation_before, self.unchanged@[k].generation_after)
        } else {
            (None, None)
        }
    }

    /// The zone table of sled `sled_id`, where it has any rows.
    pub fn to_bp_sled_subtable(&self, sled_id: SledUuid) -> (r: Option<BpSledSubtable>)
        requires
            self.wf(),
        ensures
            r is None <==> self.rows_for(sled_id).len() == 0,
            r matches Some(t) ==> rows_text(t.rows@) == self.rows_for(sled_id) && (
            t.generation_before,
            t.generation_after,
            ) == self.generations_for(sled_id),
    {
        let mut gb: Option<Generation> = None;
        let mut ga: Option<Generation> = None;
        let mut rows: Vec<BpSledSubtableRow> = Vec::new();
        let ghost p0 = if self.unchanged@.contains_key(sled_id) {
            self.unchanged@[sled_id].zones@.map_values(|z: BlueprintZoneConfig| zone_row_text(BpDiffState::Unchanged, z))
        } else {
            Seq::empty()
        };
        let ghost p1 = if self.removed@.contains_key(sled_id) {
            self.removed@[sled_id].zones@.map_values(|z: BlueprintZoneConfig| zone_row_text(BpDiffState::Removed, z))
        } else {
            Seq::empty()
        };
        let ghost p2 = if self.modified@.contains_key(sled_id) {
            self.modified@[sled_id].zones@.map_values(|m: ModifiedZone| modified_zone_row_text(m))
        } else {
            Seq::empty()
        };
        let ghost p3 = if self.added@.contains_key(sled_id) {
            self.added@[sled_id].zones@.map_values(|z: BlueprintZoneConfig| zone_row_text(BpDiffState::Added, z))
        } else {
            Seq::empty()
        };
        if let Some(d) = self.unchanged.get(sled_id) {
            gb = d.generation_before;
            ga = d.generation_after;
            zone_rows(&d.zones, BpDiffState::Unchanged, &mut rows);
        }
        proof {
            assert(rows_text(rows@) =~= p0);
        }
        if let Some(d) = self.removed.get(sled_id) {
            gb = d.generation_before;
            ga = d.generation_after;
            zone_rows(&d.zones, BpDiffState::Removed, &mut rows);
        }
        proof {
            assert(rows_text(rows@) =~= p0 + p1);
        }
        if let Some(d) = self.modified.get(sled_id) {
            gb = d.generation_before;
            ga = d.generation_after;
            modified_zone_rows(&d.zones, &mut rows);
        }
        proof {
            assert(rows_text(rows@) =~= p0 + p1 + p2);
        }
        if let Some(d) = self.added.get(sled_id) {
            gb = d.generation_before;
            ga = d.generation_after;
            zone_rows(&d.zones, BpDiffState::Added, &mut rows);
        }
        proof {
            assert(rows_text(rows@) =~= p0 + p1 + p2 + p3);
            assert(rows_text(rows@).len() == rows@.len());
        }
        if rows.len() == 0 {
            None
        } else {
            Some(BpSledSubtable { generation_before: gb, generation_after: ga, rows })
        }
    }
}

impl BpDiffPhysicalDisks {
    /// The rows of sled `k`'s disk table: unchanged, removed, then added.
    pub open spec fn rows_for(&self, k: SledUuid) -> Seq<RowText> {
        (if self.unchanged@.contains_key(k) {
            self.unchanged@[k].disks@.map_values(|d: DiskIdentity| disk_row_text(BpDiffState::Unchanged, d))
        } else {
            Seq::empty()
        }) + (if self.removed@.contains_key(k) {
            self.removed@[k].disks@.map_values(|d: DiskIdentity| disk_row_text(BpDiffState::Removed, d))
        } else {
            Seq::empty()
        }) + (if self.added@.contains_key(k) {
            self.added@[k].disks@.map_values(|d: DiskIdentity| disk_row_text(BpDiffState::Added, d))
        } else {
            Seq::empty()
        })
    }

    /// The generations that sled `k`'s disk table shows: those of its last bucket in
    /// the order unchanged, removed, added.
    pub open spec fn generations_for(&self, k: SledUuid) -> (Option<Generation>, Option<Generation>) {
        if self.added@.contains_key(k) {
            (self.added@[k].before_generation, self.added@[k].after_generation)
        } else if self.removed@.contains_key(k) {
            (self.removed@[k].before_generation, self.removed@[k].after_generation)
        } else if self.unchanged@.contains_key(k) {
            (self.unchanged@[k].before_generation, self.unchanged@[k].after_generation)
        } else {
            (None, None)
        }
    }

    /// The disk table of sled `sled_id`, where it has any rows: unchanged, removed,
    /// then added disks, each bucket in its strictly ascending disk order.
    pub fn to_bp_sled_subtable(&self, sled_id: SledUuid) -> (r: Option<BpSledSubtable>)
        requires
            self.wf(),
            self.ordered(),
        ensures
            r is None <==> self.rows_for(sled_id).len() == 0,
            r matches Some(t) ==> rows_text(t.rows@) == self.rows_for(sled_id) && (
            t.generation_before,
            t.generation_after,
            ) == self.generations_for(sled_id),
    {
        let mut gb: Option<Generation> = None;
        let mut ga: Option<Generation> = None;
        let mut rows: Vec<BpSledSubtableRow> = Vec::new();
        let ghost p0 = if self.unchanged@.contains_key(sled_id) {
            self.unchanged@[sled_id].disks@.map_values(|d: DiskIdentity| disk_row_text(BpDiffState::Unchanged, d))
        } else {
            Seq::empty()
        };
        let ghost p1 = if self.removed@.contains_key(sled_id) {
            self.removed@[sled_id].disks@.map_values(|d: DiskIdentity| disk_row_text(BpDiffState::Removed, d))
        } else {
            Seq::empty()
        };
        let ghost p2 = if self.added@.contains_key(sled_id) {
            self.added@[sled_id].disks@.map_values(|d: DiskIdentity| disk_row_text(BpDiffState::Added, d))
        } else {
            Seq::empty()
        };
        if let Some(d) = self.unchanged.get(sled_id) {
            gb = d.before_generation;
            ga = d.after_generation;
            disk_rows(&d.disks, BpDiffState::Unchanged, &mut rows);
        }
        proof {
            assert(rows_text(rows@) =~= p0);
        }
        if let Some(d) = self.removed.get(sled_id) {
            gb = d.before_generation;
            ga = d.after_generation;
            disk_rows(&d.disks, BpDiffState::Removed, &mut rows);
        }
        proof {
            assert(rows_text(rows@) =~= p0 + p1);
        }
        if let Some(d) = self.added.get(sled_id) {
            gb = d.before_generation;
            ga = d.after_generation;
            disk_rows(&d.disks, BpDiffState::Added, &mut rows);
        }
        proof {
            assert(rows_text(rows@) =~= p0 + p1 + p2);
            assert(rows_text(rows@).len() == rows@.len());
        }
        if rows.len() == 0 {
            None
        } else {
            Some(BpSledSubtable { generation_before: gb, generation_after: ga, rows })
        }
    }
}

impl BpDiffDatasets {
    /// The rows of sled `k`'s dataset table: unchanged, removed, modified, then added.
    pub open spec fn rows_for(&self, k: SledUuid) -> Seq<RowText> {
        (if self.unchanged@.contains_key(k) {
            self.unchanged@[k].datasets@.map_values(|d: BlueprintDatasetConfigForDiff| dataset_row_text(BpDiffState::Unchanged, d))
        } else {
            Seq::empty()
        }) + (if self.removed@.contains_key(k) {
            self.removed@[k].datasets@.map_values(|d: BlueprintDatasetConfigForDiff| dataset_row_text(BpDiffState::Removed, d))
        } else {
            Seq::empty()
        }) + (if self.modified@.contains_key(k) {
            self.modified@[k].datasets@.map_values(|m: ModifiedDataset| modified_dataset_row_text(m))
        } else {
            Seq::empty()
        }) + (if self.added@.contains_key(k) {
            self.added@[k].datasets@.map_values(|d: BlueprintDatasetConfigForDiff| dataset_row_text(BpDiffState::Added, d))
        } else {
            Seq::empty()
        })
    }

    /// The generations that sled `k`'s dataset table shows: those of its last bucket in
    /// the order unchanged, removed, modified, added.
    pub open spec fn generations_for(&self, k: SledUuid) -> (Option<Generation>, Option<Generation>) {
        if self.added@.contains_key(k) {
            (self.added@[k].before_generation, self.added@[k].after_generation)
        } else if self.modified@.contains_key(k) {
            (self.modified@[k].generation_before, self.modified@[k].generation_after)
        } else if self.removed@.contains_key(k) {
            (self.removed@[k].before_generation, self.removed@[k].after_generation)
        } else if self.unchanged@.contains_key(k) {
            (self.unchanged@[k].before_generation, self.unchanged@[k].after_generation)
        } else {
            (None, None)
        }
    }

    /// The dataset table of sled `sled_id`, where it has any rows: unchanged, removed,
    /// modified, then added datasets, each bucket in its strictly ascending id order.
    pub fn to_bp_sled_subtable(&self, sled_id: SledUuid) -> (r: Option<BpSledSubtable>)
        requires
            self.wf(),
            self.ordered(),
        ensures
            r is None <==> self.rows_for(sled_id).len() == 0,
            r matches Some(t) ==> rows_text(t.rows@) == self.rows_for(sled_id) && (
            t.generation_before,
            t.generation_after,
            ) == self.generations_for(sled_id),
    {
        let mut gb: Option<Generation> = None;
        let mut ga: Option<Generation> = None;
        let mut rows: Vec<BpSledSubtableRow> = Vec::new();
        let ghost p0 = if self.unchanged@.contains_key(sled_id) {
            self.unchanged@[sled_id].datasets@.map_values(|d: BlueprintDatasetConfigForDiff| dataset_row_text(BpDiffState::Unchanged, d))
        } else {
            Seq::empty()
        };
        let ghost p1 = if self.removed@.contains_key(sled_id) {
            self.removed@[sled_id].datasets@.map_values(|d: BlueprintDatasetConfigForDiff| dataset_row_text(BpDiffState::Removed, d))
        } else {
            Seq::empty()
        };
        let ghost p2 = if self.modified@.contains_key(sled_id) {
            self.modified@[sled_id].datasets@.map_values(|m: ModifiedDataset| modified_dataset_row_text(m))
        } else {
            Seq::empty()
        };
        let ghost p3 = if self.added@.contains_key(sled_id) {
            self.added@[sled_id].datasets@.map_values(|d: BlueprintDatasetConfigForDiff| dataset_row_text(BpDiffState::Added, d))
        } else {
            Seq::empty()
        };
        if let Some(d) = self.unchanged.get(sled_id) {
            gb = d.before_generation;
            ga = d.after_generation;
            dataset_rows(&d.datasets, BpDiffState::Unchanged, &mut rows);
        }
        proof {
            assert(rows_text(rows@) =~= p0);
        }
        if let Some(d) = self.removed.get(sled_id) {
            gb = d.before_generation;
            ga = d.after_generation;
            dataset_rows(&d.datasets, BpDiffState::Removed, &mut rows);
        }
        proof {
            assert(rows_text(rows@) =~= p0 + p1);
        }
        if let Some(d) = self.modified.get(sled_id) {
            gb = d.generation_before;
            ga = d.generation_after;
            let mut i: usize = 0;
            let ghost start = rows_text(rows@);
            while i < d.datasets.len()
                invariant
                    i <= d.datasets@.len(),
                    rows_text(rows@) =~= start + d.datasets@.take(i as int).map_values(
                        |m: ModifiedDataset| modified_dataset_row_text(m),
                    ),
                decreases d.datasets@.len() - i,
            {
                let row = d.datasets[i].row();
                proof {
                    assert(rows_text(rows@.push(row)) =~= rows_text(rows@).push(modified_dataset_row_text(d.datasets@[i as int])));
                    assert(d.datasets@.take(i + 1) =~= d.datasets@.take(i as int).push(d.datasets@[i as int]));
                }
                rows.push(row);
                i = i + 1;
            }
            proof {
                assert(d.datasets@.take(i as int) =~= d.datasets@);
            }
        }
        proof {
            assert(rows_text(rows@) =~= p0 + p1 + p2);
        }
        if let Some(d) = self.added.get(sled_id) {
            gb = d.before_generation;
            ga = d.after_generation;
            dataset_rows(&d.datasets, BpDiffState::Added, &mut rows);
        }
        proof {
            assert(rows_text(rows@) =~= p0 + p1 + p2 + p3);
            assert(rows_text(rows@).len() == rows@.len());
        }
        if rows.len() == 0 {
            None
        } else {
            Some(BpSledSubtable { generation_before: gb, generation_after: ga, rows })
        }
    }
}

} // verus!
