use reconfig_diff::datasets::{BlueprintDatasetConfigForDiff, BlueprintDatasetDisposition, ModifiedDataset};
use reconfig_diff::diff::{BlueprintDiff, BlueprintMetadata, CockroachDbPreserveDowngrade, DiffBeforeMetadata, SledState};
use reconfig_diff::report::{BpDiffState, BpSledSubtableColumn};
use reconfig_diff::sled_map::SledMap;
use reconfig_diff::zones::{
    BlueprintOrCollectionZonesConfig, BlueprintZoneConfig, BlueprintZoneDisposition,
    BlueprintZonesConfig, BpDiffZones, ZoneKind,
};

const S1: u128 = 0x0123_4567_89ab_cdef_0123_4567_89ab_cdef;
const S2: u128 = 0x2;

fn zone(id: u128, kind: ZoneKind, d: BlueprintZoneDisposition) -> BlueprintZoneConfig {
    BlueprintZoneConfig { disposition: d, id, kind, underlay_ip: 1, zone_type: String::from("t") }
}

fn text(c: &BpSledSubtableColumn) -> String {
    match c {
        BpSledSubtableColumn::Value(v) => v.clone(),
        BpSledSubtableColumn::Diff { before, after } => format!("{before} -> {after}"),
    }
}

fn meta(id: u128, internal_dns: u64, fingerprint: &str) -> BlueprintMetadata {
    BlueprintMetadata {
        id,
        internal_dns_version: internal_dns,
        external_dns_version: 3,
        cockroachdb_fingerprint: fingerprint.to_string(),
        cockroachdb_setting_preserve_downgrade: Some(CockroachDbPreserveDowngrade::DoNotModify),
    }
}

fn states(entries: &[(u128, SledState)]) -> SledMap<SledState> {
    let mut m = SledMap::new();
    for (k, s) in entries {
        m.insert(*k, *s);
    }
    m
}

#[test]
fn zone_table_rows_come_in_order() {
    let mut before = SledMap::new();
    before.insert(
        S1,
        BlueprintOrCollectionZonesConfig::Blueprint(BlueprintZonesConfig {
            generation: 1,
            zones: vec![
                zone(10, ZoneKind::Nexus, BlueprintZoneDisposition::InService),
                zone(11, ZoneKind::Crucible, BlueprintZoneDisposition::InService),
                zone(12, ZoneKind::Oximeter, BlueprintZoneDisposition::InService),
            ],
        }),
    );
    let mut after = SledMap::new();
    after.insert(
        S1,
        BlueprintZonesConfig {
            generation: 2,
            zones: vec![
                zone(13, ZoneKind::InternalDns, BlueprintZoneDisposition::InService),
                zone(11, ZoneKind::Crucible, BlueprintZoneDisposition::Expunged),
                zone(12, ZoneKind::Oximeter, BlueprintZoneDisposition::InService),
            ],
        },
    );
    let diff = BpDiffZones::new(before, after);
    let table = diff.to_bp_sled_subtable(S1).expect("a zone table");
    let states: Vec<BpDiffState> = table.rows.iter().map(|r| r.state).collect();
    assert_eq!(
        states,
        vec![BpDiffState::Unchanged, BpDiffState::Removed, BpDiffState::Modified, BpDiffState::Added]
    );
    assert_eq!(table.generation_before, Some(1));
    assert_eq!(table.generation_after, Some(2));
    let modified: Vec<String> = table.rows[2].columns.iter().map(text).collect();
    assert_eq!(
        modified,
        vec![
            "crucible".to_string(),
            "00000000-0000-0000-0000-00000000000b".to_string(),
            "in service -> expunged".to_string(),
            "::1".to_string(),
        ]
    );
    assert!(diff.to_bp_sled_subtable(S2).is_none());
}

fn dataset(quota: &str) -> BlueprintDatasetConfigForDiff {
    BlueprintDatasetConfigForDiff {
        name: "oxp_1/crypt/zone".to_string(),
        id: 5,
        disposition: BlueprintDatasetDisposition::InService,
        quota: quota.to_string(),
        reservation: "none".to_string(),
        compression: "off".to_string(),
    }
}

#[test]
fn modified_dataset_row_marks_changed_fields() {
    let m = ModifiedDataset { before: dataset("none"), after: dataset("1 GiB") };
    let row = m.row();
    assert_eq!(row.state, BpDiffState::Modified);
    let cells: Vec<String> = row.columns.iter().map(text).collect();
    assert_eq!(
        cells,
        vec![
            "oxp_1/crypt/zone".to_string(),
            "00000000-0000-0000-0000-000000000005".to_string(),
            "in service".to_string(),
            "none -> 1 GiB".to_string(),
            "none".to_string(),
            "off".to_string(),
        ]
    );
}

#[test]
fn sled_states_and_sections() {
    let diff = BlueprintDiff::new(
        DiffBeforeMetadata::Blueprint(meta(1, 1, "")),
        states(&[(S1, SledState::Active), (S2, SledState::Active)]),
        SledMap::new(),
        SledMap::new(),
        SledMap::new(),
        meta(2, 2, "abc"),
        states(&[(S2, SledState::Decommissioned)]),
        SledMap::new(),
        SledMap::new(),
        SledMap::new(),
    );
    let display = diff.display();
    assert_eq!(display.sled_state_removed(S1), "was active");
    assert_eq!(display.sled_state_modified(S2), "active -> decommissioned");
    assert_eq!(display.sled_state_added(S2), "blueprint diff error: added sled has old state Some(Active) (now Some(Decommissioned))");
    assert_eq!(display.sled_state_unchanged(S1), "blueprint diff error: unchanged sled changed state from Some(Active) to None");
    let sections = display.sled_sections();
    let headings: Vec<String> = sections.iter().map(|s| s.heading.clone()).collect();
    assert_eq!(headings, vec!["REMOVED SLEDS".to_string(), "MODIFIED SLEDS".to_string()]);
    assert_eq!(sections[0].sleds[0].sled_id, S1);
    assert_eq!(sections[0].sleds[0].state, "was active");
    assert!(sections[0].sleds[0].zones.is_none());
}

#[test]
fn metadata_tables() {
    let diff = BlueprintDiff::new(
        DiffBeforeMetadata::Blueprint(meta(1, 1, "")),
        SledMap::new(),
        SledMap::new(),
        SledMap::new(),
        SledMap::new(),
        meta(2, 12, "abc"),
        SledMap::new(),
        SledMap::new(),
        SledMap::new(),
        SledMap::new(),
    );
    let tables = diff.display().make_metadata_diff_tables();
    assert_eq!(tables[0].heading, "COCKROACHDB SETTINGS");
    assert_eq!(tables[0].kv[0].key, "state fingerprint");
    assert_eq!(tables[0].kv[0].state, BpDiffState::Modified);
    assert_eq!(text(&tables[0].kv[0].value), "(none) -> abc");
    assert_eq!(tables[0].kv[1].state, BpDiffState::Unchanged);
    assert_eq!(text(&tables[0].kv[1].value), "(do not modify)");
    assert_eq!(tables[1].kv[0].key, "internal DNS version");
    assert_eq!(text(&tables[1].kv[0].value), "1 -> 12");
    assert_eq!(tables[1].kv[1].state, BpDiffState::Unchanged);
    assert_eq!(text(&tables[1].kv[1].value), "3");
}

#[test]
fn metadata_against_a_collection_is_added() {
    let diff = BlueprintDiff::new(
        DiffBeforeMetadata::Collection { id: 9 },
        SledMap::new(),
        SledMap::new(),
        SledMap::new(),
        SledMap::new(),
        meta(2, 12, ""),
        SledMap::new(),
        SledMap::new(),
        SledMap::new(),
        SledMap::new(),
    );
    let tables = diff.display().make_metadata_diff_tables();
    assert_eq!(tables[0].kv[0].state, BpDiffState::Added);
    assert_eq!(text(&tables[0].kv[0].value), "(not present in collection) -> (none)");
    assert_eq!(text(&tables[1].kv[0].value), "(not present in collection) -> 12");
}

#[test]
fn zone_row_shows_hyphenated_id() {
    let mut rows = Vec::new();
    let zones = vec![zone(0xa1a2a3a4b1b2c1c2d1d2d3d4d5d6d7d8, ZoneKind::CockroachDb, BlueprintZoneDisposition::Quiesced)];
    reconfig_diff::report::zone_rows(&zones, BpDiffState::Added, &mut rows);
    let cells: Vec<String> = rows[0].columns.iter().map(text).collect();
    assert_eq!(
        cells,
        vec![
            "cockroach_db".to_string(),
            "a1a2a3a4-b1b2-c1c2-d1d2-d3d4d5d6d7d8".to_string(),
            "quiesced".to_string(),
            "::1".to_string(),
        ]
    );
}

#[test]
fn metadata_compares_values_not_text() {
    let diff = BlueprintDiff::new(
        DiffBeforeMetadata::Blueprint(meta(1, 1, "")),
        SledMap::new(),
        SledMap::new(),
        SledMap::new(),
        SledMap::new(),
        meta(2, 1, "(none)"),
        SledMap::new(),
        SledMap::new(),
        SledMap::new(),
        SledMap::new(),
    );
    let tables = diff.display().make_metadata_diff_tables();
    assert_eq!(tables[0].kv[0].state, BpDiffState::Modified);
    assert_eq!(text(&tables[0].kv[0].value), "(none) -> (none)");
    assert_eq!(tables[1].kv[0].state, BpDiffState::Unchanged);
}
