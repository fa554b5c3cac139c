//! What a report of a diff shows besides the sled tables: the state of each sled, and
//! the differences in metadata.

use vstd::prelude::*;
use vstd::string::StringExecFns;
use crate::diff::{BlueprintDiff, BlueprintMetadata, CockroachDbPreserveDowngrade, DiffBeforeMetadata, SledState, sled_state_text, state_at};
use crate::report::{BpDiffState, BpSledSubtable, BpSledSubtableColumn, RowText, column_text, rows_text};
use crate::zones::{Generation, OmicronZoneUuid};
use crate::sled_map::SledUuid;
use crate::text::string_of;

verus! {

/// The decimal digits of `n`.
pub open spec fn decimal(n: nat) -> Seq<char>
    decreases n,
{
    if n < 10 {
        seq![digit_char(n)]
    } else {
        decimal(n / 10).push(digit_char(n % 10))
    }
}

pub open spec fn digit_char(d: nat) -> char {
    if d == 0 { '0' } else if d == 1 { '1' } else if d == 2 { '2' } else if d == 3 { '3' } else if d == 4 { '4' }
    else if d == 5 { '5' } else if d == 6 { '6' } else if d == 7 { '7' } else if d == 8 { '8' } else { '9' }
}

/// Relies on `u64`'s `Display` (`ToString`): the decimal digits of the number, without
/// sign or leading zeros.
#[verifier::external_body]
fn u64_to_string(n: u64) -> (r: String)
    ensures
        r@ == decimal(n as nat),
{
    n.to_string()
}

/// The name of a sled state in debug output.
pub open spec fn sled_state_debug(s: SledState) -> Seq<char> {
    match s {
        SledState::Active => "Active"@,
        SledState::Decommissioned => "Decommissioned"@,
    }
}

/// An optional sled state in debug output.
pub open spec fn optional_state_debug(s: Option<SledState>) -> Seq<char> {
    match s {
        Some(s) => "Some("@ + sled_state_debug(s) + ")"@,
        None => "None"@,
    }
}

fn state_debug(s: Option<SledState>) -> (r: String)
    ensures
        r@ == optional_state_debug(s),
{
    match s {
        Some(s) => {
            let mut r = string_of("Some(");
            match s {
                SledState::Active => r.append("Active"),
                SledState::Decommissioned => r.append("Decommissioned"),
            }
            r.append(")");
            r
        },
        None => string_of("None"),
    }
}

/// The state shown for an unchanged sled.
pub open spec fn unchanged_state_text(before: Option<SledState>, after: Option<SledState>) -> Seq<char> {
    if before == after {
        match after {
            Some(s) => sled_state_text(s),
            None => "state unknown"@,
        }
    } else {
        "blueprint diff error: unchanged sled changed state from "@ + optional_state_debug(before)
            + " to "@ + optional_state_debug(after)
    }
}

/// The state shown for an added sled.
pub open spec fn added_state_text(before: Option<SledState>, after: Option<SledState>) -> Seq<char> {
    if before is None {
        match after {
            Some(s) => sled_state_text(s),
            None => "unknown"@,
        }
    } else {
        "blueprint diff error: added sled has old state "@ + optional_state_debug(before) + " (now "@
            + optional_state_debug(after) + ")"@
    }
}

/// The state shown for a removed sled.
pub open spec fn removed_state_text(before: Option<SledState>, after: Option<SledState>) -> Seq<char> {
    if after is None {
        match before {
            Some(s) => "was "@ + sled_state_text(s),
            None => "state was unknown"@,
        }
    } else {
        "blueprint diff error: removed sled has new state "@ + optional_state_debug(after) + " (was "@
            + optional_state_debug(before) + ")"@
    }
}

/// The state shown for a modified sled.
pub open spec fn modified_state_text(before: Option<SledState>, after: Option<SledState>) -> Seq<char> {
    match (before, after) {
        (Some(b), Some(a)) => if b != a {
            sled_state_text(b) + " -> "@ + sled_state_text(a)
        } else {
            sled_state_text(b)
        },
        (None, Some(a)) => "unknown -> "@ + sled_state_text(a),
        (Some(b), None) => sled_state_text(b) + " -> unknown"@,
        (None, None) => "unknown"@,
    }
}

/// The text of a CockroachDB preserve-downgrade setting.
pub open spec fn preserve_downgrade_text(v: CockroachDbPreserveDowngrade) -> Seq<char> {
    match v {
        CockroachDbPreserveDowngrade::DoNotModify => "(do not modify)"@,
        CockroachDbPreserveDowngrade::AllowUpgrade => "\"\" (allow upgrade)"@,
        CockroachDbPreserveDowngrade::SetVersion(version) => "\""@ + version@ + "\""@,
    }
}

/// Two preserve-downgrade settings are equal.
pub open spec fn same_preserve_downgrade(a: Option<CockroachDbPreserveDowngrade>, b: Option<CockroachDbPreserveDowngrade>) -> bool {
    match (a, b) {
        (None, None) => true,
        (Some(CockroachDbPreserveDowngrade::DoNotModify), Some(CockroachDbPreserveDowngrade::DoNotModify)) => true,
        (Some(CockroachDbPreserveDowngrade::AllowUpgrade), Some(CockroachDbPreserveDowngrade::AllowUpgrade)) => true,
        (Some(CockroachDbPreserveDowngrade::SetVersion(x)), Some(CockroachDbPreserveDowngrade::SetVersion(y))) => x@ == y@,
        _ => false,
    }
}

fn preserve_downgrade_equal(a: &Option<CockroachDbPreserveDowngrade>, b: &Option<CockroachDbPreserveDowngrade>) -> (r: bool)
    ensures
        r == same_preserve_downgrade(*a, *b),
{
    match (a, b) {
        (None, None) => true,
        (Some(CockroachDbPreserveDowngrade::DoNotModify), Some(CockroachDbPreserveDowngrade::DoNotModify)) => true,
        (Some(CockroachDbPreserveDowngrade::AllowUpgrade), Some(CockroachDbPreserveDowngrade::AllowUpgrade)) => true,
        (Some(CockroachDbPreserveDowngrade::SetVersion(x)), Some(CockroachDbPreserveDowngrade::SetVersion(y))) => *x == *y,
        _ => false,
    }
}

/// An empty value shows as `(none)`.
pub open spec fn none_if_empty_text(value: Seq<char>) -> Seq<char> {
    if value.len() == 0 {
        "(none)"@
    } else {
        value
    }
}

/// A missing setting shows as `(invalid value)`.
pub open spec fn optional_preserve_downgrade_text(value: Option<CockroachDbPreserveDowngrade>) -> Seq<char> {
    match value {
        Some(v) => preserve_downgrade_text(v),
        None => "(invalid value)"@,
    }
}

fn display_none_if_empty(value: &str) -> (r: &str)
    ensures
        r@ == none_if_empty_text(value@),
{
    if value.unicode_len() == 0 {
        "(none)"
    } else {
        value
    }
}

fn display_optional_preserve_downgrade(value: &Option<CockroachDbPreserveDowngrade>) -> (r: String)
    ensures
        r@ == optional_preserve_downgrade_text(*value),
{
    match value {
        Some(CockroachDbPreserveDowngrade::DoNotModify) => string_of("(do not modify)"),
        Some(CockroachDbPreserveDowngrade::AllowUpgrade) => string_of("\"\" (allow upgrade)"),
        Some(CockroachDbPreserveDowngrade::SetVersion(version)) => {
            let mut r = string_of("\"");
            r.append(version.as_str());
            r.append("\"");
            r
        },
        None => string_of("(invalid value)"),
    }
}

/// One line of a metadata table: what happened to the value, its label, and its value
/// (with the earlier one where it changed).
#[derive(Debug)]
pub struct KvPair {
    pub state: BpDiffState,
    pub key: String,
    pub value: BpSledSubtableColumn,
}

/// A metadata table under its heading.
#[derive(Debug)]
pub struct KvListWithHeading {
    pub heading: String,
    pub kv: Vec<KvPair>,
}

/// The line of one metadata value, shown as `after` (and `before`, the earlier value's
/// text): added where the earlier snapshot is a collection (which records no such
/// value), else unchanged where the two values are equal (`same`) and modified where
/// they differ.
pub open spec fn kv_text(before: Option<Seq<char>>, same: bool, after: Seq<char>) -> (BpDiffState, (Seq<char>, Option<Seq<char>>)) {
    match before {
        None => (BpDiffState::Added, ("(not present in collection)"@, Some(after))),
        Some(b) => if same {
            (BpDiffState::Unchanged, (after, None))
        } else {
            (BpDiffState::Modified, (b, Some(after)))
        },
    }
}

fn kv_pair(key: &str, before: Option<String>, same: bool, after: String) -> (r: KvPair)
    ensures
        r.key@ == key@,
        (r.state, column_text(r.value)) == kv_text(
            match before {
                Some(b) => Some(b@),
                None => None,
            },
            same,
            after@,
        ),
{
    match before {
        None => KvPair {
            state: BpDiffState::Added,
            key: string_of(key),
            value: BpSledSubtableColumn::Diff {
                before: string_of("(not present in collection)"),
                after,
            },
        },
        Some(b) => {
            if same {
                KvPair { state: BpDiffState::Unchanged, key: string_of(key), value: BpSledSubtableColumn::Value(after) }
            } else {
                KvPair {
                    state: BpDiffState::Modified,
                    key: string_of(key),
                    value: BpSledSubtableColumn::Diff { before: b, after },
                }
            }
        },
    }
}

/// A view of a diff for reporting.
pub struct BlueprintDiffDisplay<'diff> {
    pub diff: &'diff BlueprintDiff,
}

impl BlueprintDiff {
    pub fn display(&self) -> (r: BlueprintDiffDisplay<'_>)
        ensures
            r.diff == self,
    {
        BlueprintDiffDisplay { diff: self }
    }
}

/// The earlier blueprint's metadata, where the earlier snapshot is a blueprint.
pub open spec fn before_blueprint(m: DiffBeforeMetadata) -> Option<BlueprintMetadata> {
    match m {
        DiffBeforeMetadata::Collection { .. } => None,
        DiffBeforeMetadata::Blueprint(b) => Some(b),
    }
}

impl<'diff> BlueprintDiffDisplay<'diff> {
    fn states(&self, sled_id: SledUuid) -> (r: (Option<SledState>, Option<SledState>))
        requires
            self.diff.wf(),
        ensures
            r == (state_at(self.diff.before_state@, sled_id), state_at(self.diff.after_state@, sled_id)),
    {
        let before = match self.diff.before_state.get(sled_id) {
            Some(s) => Some(*s),
            None => None,
        };
        let after = match self.diff.after_state.get(sled_id) {
            Some(s) => Some(*s),
            None => None,
        };
        (before, after)
    }

    /// The state shown for sled `sled_id` in the unchanged section.
    pub fn sled_state_unchanged(&self, sled_id: SledUuid) -> (r: String)
        requires
            self.diff.wf(),
        ensures
            r@ == unchanged_state_text(state_at(self.diff.before_state@, sled_id), state_at(self.diff.after_state@, sled_id)),
    {
        let (before, after) = self.states(sled_id);
        if before == after {
            match after {
                Some(s) => string_of(s.as_str()),
                None => string_of("state unknown"),
            }
        } else {
            let mut r = string_of("blueprint diff error: unchanged sled changed state from ");
            r.append(state_debug(before).as_str());
            r.append(" to ");
            r.append(state_debug(after).as_str());
            r
        }
    }

    /// The state shown for sled `sled_id` in the added section.
    pub fn sled_state_added(&self, sled_id: SledUuid) -> (r: String)
        requires
            self.diff.wf(),
        ensures
            r@ == added_state_text(state_at(self.diff.before_state@, sled_id), state_at(self.diff.after_state@, sled_id)),
    {
        let (before, after) = self.states(sled_id);
        if before.is_none() {
            match after {
                Some(s) => string_of(s.as_str()),
                None => string_of("unknown"),
            }
        } else {
            let mut r = string_of("blueprint diff error: added sled has old state ");
            r.append(state_debug(before).as_str());
            r.append(" (now ");
            r.append(state_debug(after).as_str());
            r.append(")");
            r
        }
    }

    /// The state shown for sled `sled_id` in the removed section.
    pub fn sled_state_removed(&self, sled_id: SledUuid) -> (r: String)
        requires
            self.diff.wf(),
        ensures
            r@ == removed_state_text(state_at(self.diff.before_state@, sled_id), state_at(self.diff.after_state@, sled_id)),
    {
        let (before, after) = self.states(sled_id);
        if after.is_none() {
            match before {
                Some(s) => {
                    let mut r = string_of("was ");
                    r.append(s.as_str());
                    r
                },
                None => string_of("state was unknown"),
            }
        } else {
            let mut r = string_of("blueprint diff error: removed sled has new state ");
            r.append(state_debug(after).as_str());
            r.append(" (was ");
            r.append(state_debug(before).as_str());
            r.append(")");
            r
        }
    }

    /// The state shown for sled `sled_id` in the modified section.
    pub fn sled_state_modified(&self, sled_id: SledUuid) -> (r: String)
        requires
            self.diff.wf(),
        ensures
            r@ == modified_state_text(state_at(self.diff.before_state@, sled_id), state_at(self.diff.after_state@, sled_id)),
    {
        let (before, after) = self.states(sled_id);
        match (before, after) {
            (Some(b), Some(a)) => {
                if b != a {
                    let mut r = string_of(b.as_str());
                    r.append(" -> ");
                    r.append(a.as_str());
                    r
                } else {
                    string_of(b.as_str())
                }
            },
            (None, Some(a)) => {
                let mut r = string_of("unknown -> ");
                r.append(a.as_str());
                r
            },
            (Some(b), None) => {
                let mut r = string_of(b.as_str());
                r.append(" -> unknown");
                r
            },
            (None, None) => string_of("unknown"),
        }
    }

    /// The metadata tables: CockroachDB settings (state fingerprint, preserve-downgrade
    /// option), then metadata (internal and external DNS versions).
    pub fn make_metadata_diff_tables(&self) -> (r: Vec<KvListWithHeading>)
        ensures
            r@.len() == 2,
            r@[0].heading@ == "COCKROACHDB SETTINGS"@,
            r@[0].kv@.len() == 2,
            r@[0].kv@[0].key@ == "state fingerprint"@,
            (r@[0].kv@[0].state, column_text(r@[0].kv@[0].value)) == kv_text(
                match before_blueprint(self.diff.before_meta) {
                    Some(b) => Some(none_if_empty_text(b.cockroachdb_fingerprint@)),
                    None => None,
                },
                match before_blueprint(self.diff.before_meta) {
                    Some(b) => b.cockroachdb_fingerprint@ == self.diff.after_meta.cockroachdb_fingerprint@,
                    None => false,
                },
                none_if_empty_text(self.diff.after_meta.cockroachdb_fingerprint@),
            ),
            r@[0].kv@[1].key@ == "cluster.preserve_downgrade_option"@,
            (r@[0].kv@[1].state, column_text(r@[0].kv@[1].value)) == kv_text(
                match before_blueprint(self.diff.before_meta) {
                    Some(b) => Some(optional_preserve_downgrade_text(b.cockroachdb_setting_preserve_downgrade)),
                    None => None,
                },
                match before_blueprint(self.diff.before_meta) {
                    Some(b) => same_preserve_downgrade(
                        b.cockroachdb_setting_preserve_downgrade,
                        self.diff.after_meta.cockroachdb_setting_preserve_downgrade,
                    ),
                    None => false,
                },
                optional_preserve_downgrade_text(self.diff.after_meta.cockroachdb_setting_preserve_downgrade),
            ),
            r@[1].heading@ == "METADATA"@,
            r@[1].kv@.len() == 2,
            r@[1].kv@[0].key@ == "internal DNS version"@,
            (r@[1].kv@[0].state, column_text(r@[1].kv@[0].value)) == kv_text(
                match before_blueprint(self.diff.before_meta) {
                    Some(b) => Some(decimal(b.internal_dns_version as nat)),
                    None => None,
                },
                match before_blueprint(self.diff.before_meta) {
                    Some(b) => b.internal_dns_version == self.diff.after_meta.internal_dns_version,
                    None => false,
                },
                decimal(self.diff.after_meta.internal_dns_version as nat),
            ),
            r@[1].kv@[1].key@ == "external DNS version"@,
            (r@[1].kv@[1].state, column_text(r@[1].kv@[1].value)) == kv_text(
                match before_blueprint(self.diff.before_meta) {
                    Some(b) => Some(decimal(b.external_dns_version as nat)),
                    None => None,
                },
                match before_blueprint(self.diff.before_meta) {
                    Some(b) => b.external_dns_version == self.diff.after_meta.external_dns_version,
                    None => false,
                },
                decimal(self.diff.after_meta.external_dns_version as nat),
            ),
    {
        let after = &self.diff.after_meta;
        let (fp, pd, idns, edns, same) = match &self.diff.before_meta {
            DiffBeforeMetadata::Collection { .. } => (None, None, None, None, (false, false, false, false)),
            DiffBeforeMetadata::Blueprint(b) => (
                Some(string_of(display_none_if_empty(b.cockroachdb_fingerprint.as_str()))),
                Some(display_optional_preserve_downgrade(&b.cockroachdb_setting_preserve_downgrade)),
                Some(u64_to_string(b.internal_dns_version)),
                Some(u64_to_string(b.external_dns_version)),
                (
                    b.cockroachdb_fingerprint == after.cockroachdb_fingerprint,
                    preserve_downgrade_equal(
                        &b.cockroachdb_setting_preserve_downgrade,
                        &after.cockroachdb_setting_preserve_downgrade,
                    ),
                    b.internal_dns_version == after.internal_dns_version,
                    b.external_dns_version == after.external_dns_version,
                ),
            ),
        };
        let mut crdb: Vec<KvPair> = Vec::new();
        crdb.push(
            kv_pair(
                "state fingerprint",
                fp,
                same.0,
                string_of(display_none_if_empty(after.cockroachdb_fingerprint.as_str())),
            ),
        );
        crdb.push(
            kv_pair(
                "cluster.preserve_downgrade_option",
                pd,
                same.1,
                display_optional_preserve_downgrade(&after.cockroachdb_setting_preserve_downgrade),
            ),
        );
        let mut meta: Vec<KvPair> = Vec::new();
        meta.push(kv_pair("internal DNS version", idns, same.2, u64_to_string(after.internal_dns_version)));
        meta.push(kv_pair("external DNS version", edns, same.3, u64_to_string(after.external_dns_version)));
        let mut r: Vec<KvListWithHeading> = Vec::new();
        r.push(KvListWithHeading { heading: string_of("COCKROACHDB SETTINGS"), kv: crdb });
        r.push(KvListWithHeading { heading: string_of("METADATA"), kv: meta });
        r
    }

    /// The report of one sled in the section of the sleds with change `change`.
    fn sled_report(&self, sled_id: SledUuid, change: BpDiffState) -> (r: SledReport)
        requires
            self.diff.wf(),
        ensures
            sled_report_is(*self.diff, r, sled_id, change),
    {
        let state = match change {
            BpDiffState::Unchanged => self.sled_state_unchanged(sled_id),
            BpDiffState::Removed => self.sled_state_removed(sled_id),
            BpDiffState::Modified => self.sled_state_modified(sled_id),
            BpDiffState::Added => self.sled_state_added(sled_id),
        };
        SledReport {
            sled_id,
            state,
            physical_disks: self.diff.physical_disks.to_bp_sled_subtable(sled_id),
            datasets: self.diff.datasets.to_bp_sled_subtable(sled_id),
            zones: self.diff.zones.to_bp_sled_subtable(sled_id),
        }
    }

    /// The section of the sleds `sleds`, whose change is `change`.
    fn section(&self, sleds: &Vec<SledUuid>, change: BpDiffState) -> (r: SledSection)
        requires
            self.diff.wf(),
        ensures
            section_is(*self.diff, r, change, sleds@),
    {
        let mut reports: Vec<SledReport> = Vec::new();
        let mut i: usize = 0;
        while i < sleds.len()
            invariant
                self.diff.wf(),
                i <= sleds@.len(),
                reports@.len() == i,
                forall|j: int| 0 <= j < i ==> sled_report_is(*self.diff, #[trigger] reports@[j], sleds@[j], change),
            decreases sleds@.len() - i,
        {
            reports.push(self.sled_report(sleds[i], change));
            i = i + 1;
        }
        SledSection { change, heading: string_of(heading_of(change)), sleds: reports }
    }

    /// The sled sections of the report, in the order unchanged, removed, modified,
    /// added; a section without sleds is left out.
    pub fn sled_sections(&self) -> (r: Vec<SledSection>)
        requires
            self.diff.wf(),
        ensures
            r@.len() == planned_sections(*self.diff).len(),
            forall|i: int| 0 <= i < r@.len() ==> section_is(*self.diff, #[trigger] r@[i], planned_sections(*self.diff)[i].0, planned_sections(*self.diff)[i].1),
    {
        let d = self.diff;
        let mut r: Vec<SledSection> = Vec::new();
        let ghost plan = planned_sections(*d);
        let ghost s0 = if d.sleds_unchanged@.len() > 0 { seq![(BpDiffState::Unchanged, d.sleds_unchanged@)] } else { Seq::empty() };
        let ghost s1 = if d.sleds_removed@.len() > 0 { seq![(BpDiffState::Removed, d.sleds_removed@)] } else { Seq::empty() };
        let ghost s2 = if d.sleds_modified@.len() > 0 { seq![(BpDiffState::Modified, d.sleds_modified@)] } else { Seq::empty() };
        let ghost s3 = if d.sleds_added@.len() > 0 { seq![(BpDiffState::Added, d.sleds_added@)] } else { Seq::empty() };
        if d.sleds_unchanged.len() > 0 {
            r.push(self.section(&d.sleds_unchanged, BpDiffState::Unchanged));
        }
        assert(r@.len() == s0.len());
        assert(forall|i: int| 0 <= i < r@.len() ==> section_is(*d, #[trigger] r@[i], s0[i].0, s0[i].1));
        if d.sleds_removed.len() > 0 {
            r.push(self.section(&d.sleds_removed, BpDiffState::Removed));
        }
        let ghost q1 = s0 + s1;
        assert(r@.len() == q1.len());
        assert(forall|i: int| 0 <= i < r@.len() ==> section_is(*d, #[trigger] r@[i], q1[i].0, q1[i].1));
        if d.sleds_modified.len() > 0 {
            r.push(self.section(&d.sleds_modified, BpDiffState::Modified));
        }
        let ghost q2 = q1 + s2;
        assert(r@.len() == q2.len());
        assert(forall|i: int| 0 <= i < r@.len() ==> section_is(*d, #[trigger] r@[i], q2[i].0, q2[i].1));
        if d.sleds_added.len() > 0 {
            r.push(self.section(&d.sleds_added, BpDiffState::Added));
        }
        let ghost q3 = q2 + s3;
        assert(r@.len() == q3.len());
        assert(forall|i: int| 0 <= i < r@.len() ==> section_is(*d, #[trigger] r@[i], q3[i].0, q3[i].1));
        assert(q3 =~= plan);
        r
    }

    /// The zone errors of each sled that has any, in the order of the diff's error
    /// entries.
    pub fn zone_errors(&self) -> (r: Vec<SledZoneErrors>)
        ensures
            r@.len() == self.diff.zones.errors.entries@.len(),
            forall|i: int| 0 <= i < r@.len() ==> {
                let (k, e) = self.diff.zones.errors.entries@[i];
                &&& (#[trigger] r@[i]).sled_id == k
                &&& r@[i].generation_before == e.generation_before
                &&& r@[i].generation_after == e.generation_after
                &&& r@[i].errors@.len() == e.errors@.len()
                &&& forall|j: int| 0 <= j < e.errors@.len() ==> (#[trigger] r@[i].errors@[j]).0 == e.errors@[j].zone_before.id
                    && r@[i].errors@[j].1@ == e.errors@[j].reason@
            },
    {
        let entries = &self.diff.zones.errors.entries;
        let mut r: Vec<SledZoneErrors> = Vec::new();
        let mut i: usize = 0;
        while i < entries.len()
            invariant
                i <= entries@.len(),
                entries == &self.diff.zones.errors.entries,
                r@.len() == i,
                forall|m: int| 0 <= m < i ==> {
                    let (k, e) = entries@[m];
                    &&& (#[trigger] r@[m]).sled_id == k
                    &&& r@[m].generation_before == e.generation_before
                    &&& r@[m].generation_after == e.generation_after
                    &&& r@[m].errors@.len() == e.errors@.len()
                    &&& forall|j: int| 0 <= j < e.errors@.len() ==> (#[trigger] r@[m].errors@[j]).0 == e.errors@[j].zone_before.id
                        && r@[m].errors@[j].1@ == e.errors@[j].reason@
                },
            decreases entries@.len() - i,
        {
            let e = &entries[i].1;
            let mut lines: Vec<(OmicronZoneUuid, String)> = Vec::new();
            let mut j: usize = 0;
            while j < e.errors.len()
                invariant
                    j <= e.errors@.len(),
                    lines@.len() == j,
                    forall|n: int| 0 <= n < j ==> (#[trigger] lines@[n]).0 == e.errors@[n].zone_before.id
                        && lines@[n].1@ == e.errors@[n].reason@,
                decreases e.errors@.len() - j,
            {
                lines.push((e.errors[j].zone_before.id, e.errors[j].reason.clone()));
                j = j + 1;
            }
            r.push(
                SledZoneErrors {
                    sled_id: entries[i].0,
                    generation_before: e.generation_before,
                    generation_after: e.generation_after,
                    errors: lines,
                },
            );
            i = i + 1;
        }
        r
    }
}

/// The report of one sled: its id, its state, and its disk, dataset and zone tables
/// (each where it has rows).
#[derive(Debug)]
pub struct SledReport {
    pub sled_id: SledUuid,
    pub state: String,
    pub physical_disks: Option<BpSledSubtable>,
    pub datasets: Option<BpSledSubtable>,
    pub zones: Option<BpSledSubtable>,
}

/// The sleds of one class, under a heading.
#[derive(Debug)]
pub struct SledSection {
    pub change: BpDiffState,
    pub heading: String,
    pub sleds: Vec<SledReport>,
}

/// The zone errors of one sled: for each zone, its id and the reason.
#[derive(Debug)]
pub struct SledZoneErrors {
    pub sled_id: SledUuid,
    pub generation_before: Option<Generation>,
    pub generation_after: Option<Generation>,
    pub errors: Vec<(OmicronZoneUuid, String)>,
}

pub open spec fn section_heading(change: BpDiffState) -> Seq<char> {
    match change {
        BpDiffState::Unchanged => "UNCHANGED SLEDS"@,
        BpDiffState::Removed => "REMOVED SLEDS"@,
        BpDiffState::Modified => "MODIFIED SLEDS"@,
        BpDiffState::Added => "ADDED SLEDS"@,
    }
}

fn heading_of(change: BpDiffState) -> (r: &'static str)
    ensures
        r@ == section_heading(change),
{
    match change {
        BpDiffState::Unchanged => "UNCHANGED SLEDS",
        BpDiffState::Removed => "REMOVED SLEDS",
        BpDiffState::Modified => "MODIFIED SLEDS",
        BpDiffState::Added => "ADDED SLEDS",
    }
}

/// The state text of a sled in the section of change `change`.
pub open spec fn state_text_for(change: BpDiffState, before: Option<SledState>, after: Option<SledState>) -> Seq<char> {
    match change {
        BpDiffState::Unchanged => unchanged_state_text(before, after),
        BpDiffState::Removed => removed_state_text(before, after),
        BpDiffState::Modified => modified_state_text(before, after),
        BpDiffState::Added => added_state_text(before, after),
    }
}

/// `t` is the table with rows `rows` and generations `gens`, or nothing where there
/// are no rows.
pub open spec fn table_is(t: Option<BpSledSubtable>, rows: Seq<RowText>, gens: (Option<Generation>, Option<Generation>)) -> bool {
    &&& (t is None <==> rows.len() == 0)
    &&& t matches Some(x) ==> rows_text(x.rows@) == rows && (x.generation_before, x.generation_after) == gens
}

pub open spec fn sled_report_is(d: BlueprintDiff, r: SledReport, k: SledUuid, change: BpDiffState) -> bool {
    &&& r.sled_id == k
    &&& r.state@ == state_text_for(change, state_at(d.before_state@, k), state_at(d.after_state@, k))
    &&& table_is(r.physical_disks, d.physical_disks.rows_for(k), d.physical_disks.generations_for(k))
    &&& table_is(r.datasets, d.datasets.rows_for(k), d.datasets.generations_for(k))
    &&& table_is(r.zones, d.zones.rows_for(k), d.zones.generations_for(k))
}

pub open spec fn section_is(d: BlueprintDiff, s: SledSection, change: BpDiffState, sleds: Seq<SledUuid>) -> bool {
    &&& s.change == change
    &&& s.heading@ == section_heading(change)
    &&& s.sleds@.len() == sleds.len()
    &&& forall|j: int| 0 <= j < sleds.len() ==> sled_report_is(d, #[trigger] s.sleds@[j], sleds[j], change)
}

/// The sections that a report shows: unchanged, removed, modified, then added sleds,
/// each where there are any.
pub open spec fn planned_sections(d: BlueprintDiff) -> Seq<(BpDiffState, Seq<SledUuid>)> {
    (if d.sleds_unchanged@.len() > 0 { seq![(BpDiffState::Unchanged, d.sleds_unchanged@)] } else { Seq::empty() })
        + (if d.sleds_removed@.len() > 0 { seq![(BpDiffState::Removed, d.sleds_removed@)] } else { Seq::empty() })
        + (if d.sleds_modified@.len() > 0 { seq![(BpDiffState::Modified, d.sleds_modified@)] } else { Seq::empty() })
        + (if d.sleds_added@.len() > 0 { seq![(BpDiffState::Added, d.sleds_added@)] } else { Seq::empty() })
}

} // verus!
