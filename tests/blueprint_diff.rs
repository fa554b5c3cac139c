use reconfig_diff::datasets::{
    datasets_in_order, BlueprintDatasetConfigForDiff, BlueprintDatasetDisposition, BlueprintDatasetsConfig,
    BlueprintOrCollectionDatasetsConfig, BpDiffDatasets, CollectionDatasetsConfig,
};
use reconfig_diff::diff::{BlueprintDiff, BlueprintMetadata, DiffBeforeMetadata, SledState};
use reconfig_diff::disks::{
    disks_in_order, BlueprintOrCollectionDisksConfig, BlueprintPhysicalDisksConfig, BpDiffPhysicalDisks,
    CollectionPhysicalDisksConfig, DiskIdentity,
};
use reconfig_diff::sled_map::SledMap;
use reconfig_diff::zones::{
    BlueprintOrCollectionZonesConfig, BlueprintZoneConfig, BlueprintZoneDisposition,
    BlueprintZonesConfig, BpDiffZones, ModifiedZone, OmicronZoneConfig, OmicronZonesConfig,
    ZoneKind,
};

const H1: u128 = 0x11;
const H2: u128 = 0x22;
const H3: u128 = 0x33;
const Z1: u128 = 0x101;
const Z2: u128 = 0x102;
const Z3: u128 = 0x103;
const IP1: u128 = 0xfd00_0000_0000_0000_0000_0000_0000_0001;
const IP2: u128 = 0xfd00_0000_0000_0000_0000_0000_0000_0002;

fn zone(id: u128, kind: ZoneKind, ip: u128, d: BlueprintZoneDisposition) -> BlueprintZoneConfig {
    BlueprintZoneConfig {
        disposition: d,
        id,
        kind,
        underlay_ip: ip,
        zone_type: format!("{kind:?} config"),
    }
}

fn disk(v: &str, m: &str, s: &str) -> DiskIdentity {
    DiskIdentity { vendor: v.to_string(), model: m.to_string(), serial: s.to_string() }
}

fn dataset(id: u128, quota: &str) -> BlueprintDatasetConfigForDiff {
    BlueprintDatasetConfigForDiff {
        name: format!("oxp_pool/crypt/debug-{id}"),
        id,
        disposition: BlueprintDatasetDisposition::InService,
        quota: quota.to_string(),
        reservation: "none".to_string(),
        compression: "off".to_string(),
    }
}

fn before_zones(sled: u128, generation: u64, zones: Vec<BlueprintZoneConfig>) -> SledMap<BlueprintOrCollectionZonesConfig> {
    let mut m = SledMap::new();
    m.insert(sled, BlueprintOrCollectionZonesConfig::Blueprint(BlueprintZonesConfig { generation, zones }));
    m
}

fn after_zones(sled: u128, generation: u64, zones: Vec<BlueprintZoneConfig>) -> SledMap<BlueprintZonesConfig> {
    let mut m = SledMap::new();
    m.insert(sled, BlueprintZonesConfig { generation, zones });
    m
}

fn meta(id: u128) -> BlueprintMetadata {
    BlueprintMetadata {
        id,
        internal_dns_version: 1,
        external_dns_version: 1,
        cockroachdb_fingerprint: String::new(),
        cockroachdb_setting_preserve_downgrade: None,
    }
}

fn states(entries: &[(u128, SledState)]) -> SledMap<SledState> {
    let mut m = SledMap::new();
    for (k, s) in entries {
        m.insert(*k, *s);
    }
    m
}

#[test]
fn sled_map_insert_replaces() {
    let mut m = SledMap::new();
    m.insert(H1, 1u32);
    m.insert(H2, 2u32);
    m.insert(H1, 3u32);
    assert_eq!(m.entries.len(), 2);
    assert_eq!(m.get(H1), Some(&3));
    assert_eq!(m.get(H2), Some(&2));
    assert_eq!(m.get(H3), None);
    assert!(m.contains_key(H2));
    assert!(!m.contains_key(H3));
}

#[test]
fn literal_scenario() {
    let mut bdisks = SledMap::new();
    bdisks.insert(
        H1,
        BlueprintOrCollectionDisksConfig::Blueprint(BlueprintPhysicalDisksConfig {
            generation: 1,
            disks: vec![disk("v1", "m1", "s1")],
        }),
    );
    let mut adisks = SledMap::new();
    adisks.insert(
        H1,
        BlueprintPhysicalDisksConfig { generation: 2, disks: vec![disk("v1", "m1", "s1"), disk("v2", "m2", "s2")] },
    );
    let diff = BlueprintDiff::new(
        DiffBeforeMetadata::Blueprint(meta(1)),
        states(&[(H1, SledState::Active)]),
        before_zones(H1, 1, vec![zone(Z1, ZoneKind::Nexus, IP1, BlueprintZoneDisposition::InService)]),
        bdisks,
        SledMap::new(),
        meta(2),
        states(&[(H1, SledState::Active)]),
        after_zones(H1, 2, vec![zone(Z1, ZoneKind::Nexus, IP1, BlueprintZoneDisposition::Expunged)]),
        adisks,
        SledMap::new(),
    );
    let modified = diff.zones.modified.get(H1).expect("modified zones");
    assert_eq!(modified.zones.len(), 1);
    assert_eq!(modified.zones[0].zone.id, Z1);
    assert_eq!(modified.zones[0].prior_disposition, BlueprintZoneDisposition::InService);
    assert_eq!(modified.zones[0].zone.disposition, BlueprintZoneDisposition::Expunged);
    assert!(diff.zones.errors.get(H1).is_none());
    let unchanged = diff.physical_disks.unchanged.get(H1).expect("unchanged disks");
    assert_eq!(unchanged.disks.len(), 1);
    assert_eq!(unchanged.disks[0].serial, "s1");
    let added = diff.physical_disks.added.get(H1).expect("added disks");
    assert_eq!(added.disks.len(), 1);
    assert_eq!(added.disks[0].serial, "s2");
    assert_eq!(added.before_generation, Some(1));
    assert_eq!(added.after_generation, Some(2));
    assert!(diff.physical_disks.removed.get(H1).is_none());
    assert_eq!(diff.sleds_modified, vec![H1]);
    assert!(diff.sleds_added.is_empty());
    assert!(diff.sleds_removed.is_empty());
    assert!(diff.sleds_unchanged.is_empty());
}

#[test]
fn kind_change_is_an_error() {
    let before = before_zones(H1, 1, vec![zone(Z2, ZoneKind::Nexus, IP2, BlueprintZoneDisposition::InService)]);
    let mut changed = zone(Z2, ZoneKind::Oximeter, IP2, BlueprintZoneDisposition::InService);
    changed.zone_type = format!("{:?} config", ZoneKind::Nexus);
    let after = after_zones(H1, 2, vec![changed]);
    let diff = BpDiffZones::new(before, after);
    let errors = &diff.errors.get(H1).expect("zone errors").errors;
    assert_eq!(errors.len(), 1);
    assert!(errors[0].reason.contains("mismatched zone kind: before: nexus, after: oximeter"));
    assert_eq!(errors[0].reason, "mismatched zone kind: before: nexus, after: oximeter\n");
    assert_eq!(errors[0].zone_before.id, Z2);
    assert!(diff.modified.get(H1).is_none());
    assert!(diff.unchanged.get(H1).is_none());
}

#[test]
fn modified_zone_new_reports_each_mismatch() {
    let before = zone(Z1, ZoneKind::Nexus, IP1, BlueprintZoneDisposition::InService);
    let after = zone(Z1, ZoneKind::Crucible, IP2, BlueprintZoneDisposition::InService);
    let err = ModifiedZone::new(before, after).expect_err("structural change");
    assert_eq!(
        err.reason,
        "mismatched zone kind: before: nexus, after: crucible\n\
         mismatched underlay IP: before: fd00::1, after: fd00::2\n\
         mismatched zone type: after: Crucible config\n"
    );
}

#[test]
fn modified_zone_new_accepts_disposition_change() {
    let before = zone(Z1, ZoneKind::Nexus, IP1, BlueprintZoneDisposition::InService);
    let after = zone(Z1, ZoneKind::Nexus, IP1, BlueprintZoneDisposition::Quiesced);
    let m = ModifiedZone::new(before, after).expect("only the disposition changed");
    assert_eq!(m.prior_disposition, BlueprintZoneDisposition::InService);
    assert_eq!(m.zone.disposition, BlueprintZoneDisposition::Quiesced);
}

#[test]
fn zones_are_sorted_by_kind_then_id() {
    let zs = vec![
        zone(Z3, ZoneKind::Nexus, IP1, BlueprintZoneDisposition::InService),
        zone(Z2, ZoneKind::Crucible, IP1, BlueprintZoneDisposition::InService),
        zone(Z1, ZoneKind::Nexus, IP1, BlueprintZoneDisposition::InService),
    ];
    let diff = BpDiffZones::new(SledMap::new(), after_zones(H2, 5, zs));
    let added = diff.added.get(H2).expect("added zones");
    let ids: Vec<u128> = added.zones.iter().map(|z| z.id).collect();
    assert_eq!(ids, vec![Z2, Z1, Z3]);
    assert_eq!(added.generation_before, None);
    assert_eq!(added.generation_after, Some(5));
}

#[test]
fn removed_sled_zones_have_no_later_generation() {
    let before = before_zones(H1, 3, vec![zone(Z1, ZoneKind::Nexus, IP1, BlueprintZoneDisposition::InService)]);
    let diff = BpDiffZones::new(before, SledMap::new());
    let removed = diff.removed.get(H1).expect("removed zones");
    assert_eq!(removed.generation_before, Some(3));
    assert_eq!(removed.generation_after, None);
    assert_eq!(removed.zones.len(), 1);
}

#[test]
fn collection_zones_are_in_service() {
    let mut before = SledMap::new();
    before.insert(
        H1,
        BlueprintOrCollectionZonesConfig::Collection(OmicronZonesConfig {
            zones: vec![OmicronZoneConfig {
                id: Z1,
                kind: ZoneKind::Nexus,
                underlay_ip: IP1,
                zone_type: format!("{:?} config", ZoneKind::Nexus),
            }],
        }),
    );
    let after = after_zones(H1, 1, vec![zone(Z1, ZoneKind::Nexus, IP1, BlueprintZoneDisposition::InService)]);
    let diff = BpDiffZones::new(before, after);
    let unchanged = diff.unchanged.get(H1).expect("unchanged zones");
    assert_eq!(unchanged.generation_before, None);
    assert_eq!(unchanged.generation_after, Some(1));
    assert_eq!(unchanged.zones.len(), 1);
}

#[test]
fn disk_set_differences() {
    let mut before = SledMap::new();
    before.insert(
        H1,
        BlueprintOrCollectionDisksConfig::Collection(CollectionPhysicalDisksConfig {
            disks: vec![disk("a", "m", "1"), disk("a", "m", "2")],
        }),
    );
    let mut after = SledMap::new();
    after.insert(H1, BlueprintPhysicalDisksConfig { generation: 4, disks: vec![disk("a", "m", "2"), disk("a", "m", "3")] });
    let diff = BpDiffPhysicalDisks::new(before, after);
    let serials = |d: &reconfig_diff::disks::DiffPhysicalDisksDetails| -> Vec<String> {
        d.disks.iter().map(|d| d.serial.clone()).collect()
    };
    assert_eq!(serials(diff.added.get(H1).unwrap()), vec!["3"]);
    assert_eq!(serials(diff.removed.get(H1).unwrap()), vec!["1"]);
    assert_eq!(serials(diff.unchanged.get(H1).unwrap()), vec!["2"]);
    assert_eq!(diff.added.get(H1).unwrap().before_generation, None);
}

#[test]
fn dataset_buckets() {
    let mut before = SledMap::new();
    before.insert(
        H1,
        BlueprintOrCollectionDatasetsConfig::Collection(CollectionDatasetsConfig {
            datasets: vec![dataset(1, "none"), dataset(2, "none"), dataset(3, "none")],
        }),
    );
    let mut after = SledMap::new();
    after.insert(
        H1,
        BlueprintDatasetsConfig { generation: 2, datasets: vec![dataset(1, "none"), dataset(2, "10 GiB"), dataset(4, "none")] },
    );
    let diff = BpDiffDatasets::new(before, after);
    assert_eq!(diff.unchanged.get(H1).unwrap().datasets[0].id, 1);
    let m = diff.modified.get(H1).unwrap();
    assert_eq!(m.datasets.len(), 1);
    assert_eq!(m.datasets[0].before.quota, "none");
    assert_eq!(m.datasets[0].after.quota, "10 GiB");
    assert_eq!(diff.removed.get(H1).unwrap().datasets[0].id, 3);
    assert_eq!(diff.added.get(H1).unwrap().datasets[0].id, 4);
}

#[test]
fn identical_snapshots_are_unchanged() {
    let zs = || vec![zone(Z1, ZoneKind::Nexus, IP1, BlueprintZoneDisposition::InService)];
    let diff = BlueprintDiff::new(
        DiffBeforeMetadata::Blueprint(meta(1)),
        states(&[(H1, SledState::Active), (H2, SledState::Active)]),
        before_zones(H1, 1, zs()),
        SledMap::new(),
        SledMap::new(),
        meta(1),
        states(&[(H1, SledState::Active), (H2, SledState::Active)]),
        after_zones(H1, 1, zs()),
        SledMap::new(),
        SledMap::new(),
    );
    assert!(diff.sleds_added.is_empty());
    assert!(diff.sleds_removed.is_empty());
    assert!(diff.sleds_modified.is_empty());
    assert_eq!(diff.sleds_unchanged, vec![H1, H2]);
    assert!(diff.zones.added.get(H1).is_none());
    assert!(diff.zones.modified.get(H1).is_none());
    assert!(diff.zones.errors.get(H1).is_none());
}

#[test]
fn sleds_are_classified_once() {
    let diff = BlueprintDiff::new(
        DiffBeforeMetadata::Collection { id: 7 },
        states(&[(H1, SledState::Active), (H2, SledState::Active)]),
        SledMap::new(),
        SledMap::new(),
        SledMap::new(),
        meta(2),
        states(&[(H2, SledState::Decommissioned), (H3, SledState::Active)]),
        SledMap::new(),
        SledMap::new(),
        SledMap::new(),
    );
    assert_eq!(diff.sleds_removed, vec![H1]);
    assert_eq!(diff.sleds_modified, vec![H2]);
    assert_eq!(diff.sleds_added, vec![H3]);
    assert!(diff.sleds_unchanged.is_empty());
}

#[test]
fn decommissioned_sled_with_leftover_zones() {
    let diff = BlueprintDiff::new(
        DiffBeforeMetadata::Blueprint(meta(1)),
        states(&[(H1, SledState::Decommissioned)]),
        before_zones(H1, 1, vec![zone(Z1, ZoneKind::Nexus, IP1, BlueprintZoneDisposition::Expunged)]),
        SledMap::new(),
        SledMap::new(),
        meta(2),
        states(&[]),
        after_zones(H1, 1, vec![zone(Z1, ZoneKind::Nexus, IP1, BlueprintZoneDisposition::Expunged)]),
        SledMap::new(),
        SledMap::new(),
    );
    assert_eq!(diff.after_state.get(H1), Some(&SledState::Decommissioned));
    assert!(diff.sleds_removed.is_empty());
    assert!(diff.sleds_added.is_empty());
    assert_eq!(diff.sleds_unchanged, vec![H1]);
}

#[test]
fn zone_errors_are_sorted() {
    let before = before_zones(
        H1,
        1,
        vec![
            zone(Z3, ZoneKind::Nexus, IP1, BlueprintZoneDisposition::InService),
            zone(Z1, ZoneKind::Crucible, IP1, BlueprintZoneDisposition::InService),
            zone(Z2, ZoneKind::Nexus, IP1, BlueprintZoneDisposition::InService),
        ],
    );
    let after = after_zones(
        H1,
        2,
        vec![
            zone(Z1, ZoneKind::Crucible, IP2, BlueprintZoneDisposition::InService),
            zone(Z2, ZoneKind::Nexus, IP2, BlueprintZoneDisposition::InService),
            zone(Z3, ZoneKind::Nexus, IP2, BlueprintZoneDisposition::InService),
        ],
    );
    let diff = BpDiffZones::new(before, after);
    let errors = &diff.errors.get(H1).expect("zone errors").errors;
    let ids: Vec<u128> = errors.iter().map(|e| e.zone_before.id).collect();
    assert_eq!(ids, vec![Z1, Z2, Z3]);
    assert_eq!(errors[0].reason, "mismatched underlay IP: before: fd00::1, after: fd00::2\n");
    assert_eq!(diff.errors.get(H1).unwrap().generation_before, Some(1));
}

#[test]
fn sled_map_keeps_keys_in_order() {
    let mut m = SledMap::new();
    m.insert(H3, "c");
    m.insert(H1, "a");
    m.insert(H2, "b");
    let keys: Vec<u128> = m.entries.iter().map(|e| e.0).collect();
    assert_eq!(keys, vec![H1, H2, H3]);
}

#[test]
fn sled_only_before_with_no_disks_is_removed() {
    let mut before = SledMap::new();
    before.insert(
        H1,
        BlueprintOrCollectionDisksConfig::Blueprint(BlueprintPhysicalDisksConfig { generation: 3, disks: vec![] }),
    );
    let diff = BpDiffPhysicalDisks::new(before, SledMap::new());
    let removed = diff.removed.get(H1).expect("removed entry");
    assert!(removed.disks.is_empty());
    assert_eq!(removed.before_generation, Some(3));
    assert_eq!(removed.after_generation, None);
    assert!(diff.to_bp_sled_subtable(H1).is_none());
}

#[test]
fn empty_removed_disks_do_not_modify_a_sled() {
    let mut bdisks = SledMap::new();
    bdisks.insert(
        H1,
        BlueprintOrCollectionDisksConfig::Blueprint(BlueprintPhysicalDisksConfig { generation: 1, disks: vec![] }),
    );
    let diff = BlueprintDiff::new(
        DiffBeforeMetadata::Blueprint(meta(1)),
        states(&[(H1, SledState::Active)]),
        SledMap::new(),
        bdisks,
        SledMap::new(),
        meta(2),
        states(&[(H1, SledState::Active)]),
        SledMap::new(),
        SledMap::new(),
        SledMap::new(),
    );
    assert!(diff.physical_disks.removed.get(H1).is_some());
    assert_eq!(diff.sleds_unchanged, vec![H1]);
    assert!(diff.sleds_modified.is_empty());
}

#[test]
fn dataset_buckets_ascend_by_id() {
    let mut before = SledMap::new();
    before.insert(
        H1,
        BlueprintOrCollectionDatasetsConfig::Blueprint(BlueprintDatasetsConfig {
            generation: 1,
            datasets: vec![dataset(1, "none"), dataset(2, "none"), dataset(5, "none"), dataset(7, "none")],
        }),
    );
    let mut after = SledMap::new();
    after.insert(
        H1,
        BlueprintDatasetsConfig {
            generation: 2,
            datasets: vec![dataset(2, "1 GiB"), dataset(3, "none"), dataset(6, "none"), dataset(7, "2 GiB")],
        },
    );
    let diff = BpDiffDatasets::new(before, after);
    let ids = |v: &Vec<BlueprintDatasetConfigForDiff>| -> Vec<u128> { v.iter().map(|d| d.id).collect() };
    assert_eq!(ids(&diff.removed.get(H1).unwrap().datasets), vec![1, 5]);
    assert_eq!(ids(&diff.added.get(H1).unwrap().datasets), vec![3, 6]);
    let m: Vec<u128> = diff.modified.get(H1).unwrap().datasets.iter().map(|m| m.before.id).collect();
    assert_eq!(m, vec![2, 7]);
}

#[test]
fn category_diffs_of_identical_copies() {
    let zs = || vec![zone(Z1, ZoneKind::Nexus, IP1, BlueprintZoneDisposition::InService), zone(Z2, ZoneKind::Crucible, IP2, BlueprintZoneDisposition::Expunged)];
    let zd = BpDiffZones::new(before_zones(H1, 4, zs()), after_zones(H1, 4, zs()));
    assert!(zd.added.entries.is_empty() && zd.removed.entries.is_empty());
    assert!(zd.modified.entries.is_empty() && zd.errors.entries.is_empty());
    let ids: Vec<u128> = zd.unchanged.get(H1).unwrap().zones.iter().map(|z| z.id).collect();
    assert_eq!(ids, vec![Z2, Z1]);

    let ds = || vec![disk("a", "m", "1"), disk("b", "m", "1")];
    let mut bd = SledMap::new();
    bd.insert(H1, BlueprintOrCollectionDisksConfig::Blueprint(BlueprintPhysicalDisksConfig { generation: 1, disks: ds() }));
    let mut ad = SledMap::new();
    ad.insert(H1, BlueprintPhysicalDisksConfig { generation: 1, disks: ds() });
    let dd = BpDiffPhysicalDisks::new(bd, ad);
    assert!(dd.added.entries.is_empty() && dd.removed.entries.is_empty());
    assert_eq!(dd.unchanged.get(H1).unwrap().disks.len(), 2);

    let ts = || vec![dataset(1, "none"), dataset(2, "none")];
    let mut bt = SledMap::new();
    bt.insert(H1, BlueprintOrCollectionDatasetsConfig::Blueprint(BlueprintDatasetsConfig { generation: 1, datasets: ts() }));
    let mut at = SledMap::new();
    at.insert(H1, BlueprintDatasetsConfig { generation: 1, datasets: ts() });
    let td = BpDiffDatasets::new(bt, at);
    assert!(td.added.entries.is_empty() && td.removed.entries.is_empty() && td.modified.entries.is_empty());
    assert_eq!(td.unchanged.get(H1).unwrap().datasets.len(), 2);
}

#[test]
fn input_order_checks() {
    assert!(disks_in_order(&vec![disk("a", "m", "1"), disk("a", "m", "2"), disk("ab", "a", "0")]));
    assert!(!disks_in_order(&vec![disk("b", "m", "1"), disk("a", "m", "2")]));
    assert!(!disks_in_order(&vec![disk("a", "m", "1"), disk("a", "m", "1")]));
    assert!(disk("a", "m", "1").comes_before(&disk("a", "n", "0")));
    assert!(datasets_in_order(&vec![dataset(1, "none"), dataset(4, "none")]));
    assert!(!datasets_in_order(&vec![dataset(4, "none"), dataset(4, "none")]));
}
