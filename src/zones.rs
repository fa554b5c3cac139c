//! Zones: their records, the check of an in-place change, and the per-sled zone diff.

use vstd::prelude::*;
use vstd::string::StringExecFns;
use crate::sled_map::{SledMap, SledUuid};
use crate::text::{ipv6_text, ipv6_to_string};

verus! {

/// Stable identifier of a zone, as the 128-bit value of its UUID.
pub type OmicronZoneUuid = u128;

/// A per-sled, per-category version counter.
pub type Generation = u64;

/// The kind of service that a zone runs.
#[derive(Clone, Copy, Debug, PartialEq, Eq, Structural)]
pub enum ZoneKind {
    BoundaryNtp,
    Clickhouse,
    ClickhouseKeeper,
    ClickhouseServer,
    CockroachDb,
    Crucible,
    CruciblePantry,
    ExternalDns,
    InternalDns,
    InternalNtp,
    Nexus,
    Oximeter,
}

/// The place of a kind in the order that sorts zones for display.
pub open spec fn kind_rank(k: ZoneKind) -> u8 {
    match k {
        ZoneKind::BoundaryNtp => 0,
        ZoneKind::Clickhouse => 1,
        ZoneKind::ClickhouseKeeper => 2,
        ZoneKind::ClickhouseServer => 3,
        ZoneKind::CockroachDb => 4,
        ZoneKind::Crucible => 5,
        ZoneKind::CruciblePantry => 6,
        ZoneKind::ExternalDns => 7,
        ZoneKind::InternalDns => 8,
        ZoneKind::InternalNtp => 9,
        ZoneKind::Nexus => 10,
        ZoneKind::Oximeter => 11,
    }
}

/// The name under which a kind appears in reports.
pub open spec fn kind_report(k: ZoneKind) -> Seq<char> {
    match k {
        ZoneKind::BoundaryNtp => "boundary_ntp"@,
        ZoneKind::Clickhouse => "clickhouse"@,
        ZoneKind::ClickhouseKeeper => "clickhouse_keeper"@,
        ZoneKind::ClickhouseServer => "clickhouse_server"@,
        ZoneKind::CockroachDb => "cockroach_db"@,
        ZoneKind::Crucible => "crucible"@,
        ZoneKind::CruciblePantry => "crucible_pantry"@,
        ZoneKind::ExternalDns => "external_dns"@,
        ZoneKind::InternalDns => "internal_dns"@,
        ZoneKind::InternalNtp => "internal_ntp"@,
        ZoneKind::Nexus => "nexus"@,
        ZoneKind::Oximeter => "oximeter"@,
    }
}

impl ZoneKind {
    pub fn rank(&self) -> (r: u8)
        ensures
            r == kind_rank(*self),
    {
        match self {
            ZoneKind::BoundaryNtp => 0,
            ZoneKind::Clickhouse => 1,
            ZoneKind::ClickhouseKeeper => 2,
            ZoneKind::ClickhouseServer => 3,
            ZoneKind::CockroachDb => 4,
            ZoneKind::Crucible => 5,
            ZoneKind::CruciblePantry => 6,
            ZoneKind::ExternalDns => 7,
            ZoneKind::InternalDns => 8,
            ZoneKind::InternalNtp => 9,
            ZoneKind::Nexus => 10,
            ZoneKind::Oximeter => 11,
        }
    }

    pub fn report_str(&self) -> (r: &'static str)
        ensures
            r@ == kind_report(*self),
    {
        match self {
            ZoneKind::BoundaryNtp => "boundary_ntp",
            ZoneKind::Clickhouse => "clickhouse",
            ZoneKind::ClickhouseKeeper => "clickhouse_keeper",
            ZoneKind::ClickhouseServer => "clickhouse_server",
            ZoneKind::CockroachDb => "cockroach_db",
            ZoneKind::Crucible => "crucible",
            ZoneKind::CruciblePantry => "crucible_pantry",
            ZoneKind::ExternalDns => "external_dns",
            ZoneKind::InternalDns => "internal_dns",
            ZoneKind::InternalNtp => "internal_ntp",
            ZoneKind::Nexus => "nexus",
            ZoneKind::Oximeter => "oximeter",
        }
    }
}

/// The lifecycle state of a zone: the one field of a zone that may change in place.
#[derive(Clone, Copy, Debug, PartialEq, Eq, Structural)]
pub enum BlueprintZoneDisposition {
    InService,
    Quiesced,
    Expunged,
}

pub open spec fn disposition_text(d: BlueprintZoneDisposition) -> Seq<char> {
    match d {
        BlueprintZoneDisposition::InService => "in service"@,
        BlueprintZoneDisposition::Quiesced => "quiesced"@,
        BlueprintZoneDisposition::Expunged => "expunged"@,
    }
}

impl BlueprintZoneDisposition {
    pub fn as_str(&self) -> (r: &'static str)
        ensures
            r@ == disposition_text(*self),
    {
        match self {
            BlueprintZoneDisposition::InService => "in service",
            BlueprintZoneDisposition::Quiesced => "quiesced",
            BlueprintZoneDisposition::Expunged => "expunged",
        }
    }
}

/// A zone as a blueprint places it on a sled.
///
/// `kind`, `underlay_ip` and `zone_type` (the kind-specific configuration, in its
/// canonical text form) identify the zone's structure and never change in place.
#[derive(Clone, Debug)]
pub struct BlueprintZoneConfig {
    pub disposition: BlueprintZoneDisposition,
    pub id: OmicronZoneUuid,
    pub kind: ZoneKind,
    pub underlay_ip: u128,
    pub zone_type: String,
}

/// A zone as an inventory collection observed it: it has no disposition.
#[derive(Clone, Debug)]
pub struct OmicronZoneConfig {
    pub id: OmicronZoneUuid,
    pub kind: ZoneKind,
    pub underlay_ip: u128,
    pub zone_type: String,
}

/// Two zone records are identical.
pub open spec fn same_zone(a: BlueprintZoneConfig, b: BlueprintZoneConfig) -> bool {
    &&& a.disposition == b.disposition
    &&& a.id == b.id
    &&& a.kind == b.kind
    &&& a.underlay_ip == b.underlay_ip
    &&& a.zone_type@ == b.zone_type@
}

/// Two zone records agree on the fields that may not change in place.
pub open spec fn same_structure(a: BlueprintZoneConfig, b: BlueprintZoneConfig) -> bool {
    &&& a.kind == b.kind
    &&& a.underlay_ip == b.underlay_ip
    &&& a.zone_type@ == b.zone_type@
}

impl BlueprintZoneConfig {
    pub fn duplicate(&self) -> (r: Self)
        ensures
            r == *self,
    {
        BlueprintZoneConfig {
            disposition: self.disposition,
            id: self.id,
            kind: self.kind,
            underlay_ip: self.underlay_ip,
            zone_type: self.zone_type.clone(),
        }
    }

    /// Whether the two records are identical.
    pub fn same_as(&self, other: &BlueprintZoneConfig) -> (r: bool)
        ensures
            r == same_zone(*self, *other),
    {
        self.disposition == other.disposition && self.id == other.id && self.kind == other.kind
            && self.underlay_ip == other.underlay_ip && self.zone_type == other.zone_type
    }
}

/// An observed zone as a zone record: an observed zone is in service.
pub open spec fn observed_as_blueprint(z: OmicronZoneConfig) -> BlueprintZoneConfig {
    BlueprintZoneConfig {
        disposition: BlueprintZoneDisposition::InService,
        id: z.id,
        kind: z.kind,
        underlay_ip: z.underlay_ip,
        zone_type: z.zone_type,
    }
}

impl OmicronZoneConfig {
    pub fn to_blueprint(&self) -> (r: BlueprintZoneConfig)
        ensures
            r == observed_as_blueprint(*self),
    {
        BlueprintZoneConfig {
            disposition: BlueprintZoneDisposition::InService,
            id: self.id,
            kind: self.kind,
            underlay_ip: self.underlay_ip,
            zone_type: self.zone_type.clone(),
        }
    }
}

/// A modified zone: only its disposition changed.
#[derive(Debug)]
pub struct ModifiedZone {
    pub prior_disposition: BlueprintZoneDisposition,
    pub zone: BlueprintZoneConfig,
}

/// A zone whose structural fields differ between the two snapshots.
#[derive(Debug)]
pub struct BpDiffZoneError {
    pub zone_before: BlueprintZoneConfig,
    pub zone_after: BlueprintZoneConfig,
    pub reason: String,
}

/// The text that explains why a change of `before` into `after` is not allowed in
/// place: one line for each structural field that differs, in the order kind,
/// underlay IP, zone type.
pub open spec fn mismatch_reason(before: BlueprintZoneConfig, after: BlueprintZoneConfig) -> Seq<char> {
    let kind_part = if before.kind != after.kind {
        "mismatched zone kind: before: "@ + kind_report(before.kind) + ", after: "@
            + kind_report(after.kind) + "\n"@
    } else {
        Seq::<char>::empty()
    };
    let ip_part = if before.underlay_ip != after.underlay_ip {
        "mismatched underlay IP: before: "@ + ipv6_text(before.underlay_ip) + ", after: "@
            + ipv6_text(after.underlay_ip) + "\n"@
    } else {
        Seq::<char>::empty()
    };
    let type_part = if before.zone_type@ != after.zone_type@ {
        "mismatched zone type: after: "@ + after.zone_type@ + "\n"@
    } else {
        Seq::<char>::empty()
    };
    kind_part + ip_part + type_part
}

impl ModifiedZone {
    /// Checks a change of `before` into `after`: a modification where only the
    /// disposition may differ, an error naming each structural field that differs.
    pub fn new(before: BlueprintZoneConfig, after: BlueprintZoneConfig) -> (r: Result<
        ModifiedZone,
        BpDiffZoneError,
    >)
        ensures
            same_structure(before, after) <==> r is Ok,
            r matches Ok(m) ==> m.prior_disposition == before.disposition && m.zone == after,
            r matches Err(e) ==> e.zone_before == before && e.zone_after == after
                && e.reason@ == mismatch_reason(before, after),
    {
        let kind_differs = before.kind != after.kind;
        let ip_differs = before.underlay_ip != after.underlay_ip;
        let type_differs = !(before.zone_type == after.zone_type);
        if !kind_differs && !ip_differs && !type_differs {
            return Ok(ModifiedZone { prior_disposition: before.disposition, zone: after });
        }
        let mut reason = String::new();
        if kind_differs {
            reason.append("mismatched zone kind: before: ");
            reason.append(before.kind.report_str());
            reason.append(", after: ");
            reason.append(after.kind.report_str());
            reason.append("\n");
        }
        if ip_differs {
            let b = ipv6_to_string(before.underlay_ip);
            let a = ipv6_to_string(after.underlay_ip);
            reason.append("mismatched underlay IP: before: ");
            reason.append(b.as_str());
            reason.append(", after: ");
            reason.append(a.as_str());
            reason.append("\n");
        }
        if type_differs {
            reason.append("mismatched zone type: after: ");
            reason.append(after.zone_type.as_str());
            reason.append("\n");
        }
        proof {
            assert(reason@ =~= mismatch_reason(before, after));
        }
        Err(BpDiffZoneError { zone_before: before, zone_after: after, reason })
    }
}

/// Records that are shown in zone order: by kind, then by id.
pub trait ZoneSortKey {
    spec fn spec_kind(&self) -> ZoneKind;

    spec fn spec_id(&self) -> OmicronZoneUuid;

    fn kind(&self) -> (r: ZoneKind)
        ensures
            r == self.spec_kind(),
    ;

    fn id(&self) -> (r: OmicronZoneUuid)
        ensures
            r == self.spec_id(),
    ;
}

impl ZoneSortKey for BlueprintZoneConfig {
    open spec fn spec_kind(&self) -> ZoneKind {
        self.kind
    }

    open spec fn spec_id(&self) -> OmicronZoneUuid {
        self.id
    }

    fn kind(&self) -> (r: ZoneKind) {
        self.kind
    }

    fn id(&self) -> (r: OmicronZoneUuid) {
        self.id
    }
}

impl ZoneSortKey for ModifiedZone {
    open spec fn spec_kind(&self) -> ZoneKind {
        self.zone.kind
    }

    open spec fn spec_id(&self) -> OmicronZoneUuid {
        self.zone.id
    }

    fn kind(&self) -> (r: ZoneKind) {
        self.zone.kind
    }

    fn id(&self) -> (r: OmicronZoneUuid) {
        self.zone.id
    }
}

/// `a` comes no later than `b` in zone order.
pub open spec fn zone_order_le<T: ZoneSortKey>(a: T, b: T) -> bool {
    kind_rank(a.spec_kind()) < kind_rank(b.spec_kind()) || (kind_rank(a.spec_kind())
        == kind_rank(b.spec_kind()) && a.spec_id() <= b.spec_id())
}

/// The records are in zone order.
pub open spec fn sorted_by_zone_key<T: ZoneSortKey>(s: Seq<T>) -> bool {
    forall|i: int, j: int| 0 <= i < j < s.len() ==> zone_order_le(s[i], s[j])
}

/// Inserts `x` into the zone-ordered `v`, after the records that come no later.
pub fn insert_in_zone_order<T: ZoneSortKey>(v: &mut Vec<T>, x: T)
    requires
        sorted_by_zone_key(old(v)@),
    ensures
        sorted_by_zone_key(final(v)@),
        final(v)@.to_multiset() == old(v)@.to_multiset().insert(x),
{
    let xr = x.kind().rank();
    let xid = x.id();
    let mut p: usize = 0;
    while p < v.len()
        invariant
            p <= v@.len(),
            v@ == old(v)@,
            sorted_by_zone_key(v@),
            xr == kind_rank(x.spec_kind()),
            xid == x.spec_id(),
            forall|i: int| 0 <= i < p ==> zone_order_le(#[trigger] v@[i], x),
        ensures
            p <= v@.len(),
            v@ == old(v)@,
            forall|i: int| 0 <= i < p ==> zone_order_le(#[trigger] v@[i], x),
            p < v@.len() ==> !zone_order_le(v@[p as int], x),
        decreases v@.len() - p,
    {
        let r = v[p].kind().rank();
        let id = v[p].id();
        if !(r < xr || (r == xr && id <= xid)) {
            break;
        }
        p = p + 1;
    }
    proof {
        vstd::seq_lib::to_multiset_insert(v@, p as int, x);
    }
    let ghost before = v@;
    v.insert(p, x);
    proof {
        assert forall|i: int, j: int| 0 <= i < j < v@.len() implies zone_order_le(
            v@[i],
            v@[j],
        ) by {
            if p < before.len() {
                assert(!zone_order_le(before[p as int], x));
            }
            if j > p && i < p {
                assert(zone_order_le(before[i], x));
            }
            if j > p && i > p {
                assert(zone_order_le(before[i - 1], before[j - 1]));
            }
            if j > p && i == p {
                assert(zone_order_le(before[p as int], before[j - 1]));
            }
            if j < p {
                assert(zone_order_le(before[i], before[j]));
            }
            if j == p {
                assert(zone_order_le(before[i], x));
            }
        }
    }
}

/// No two zones share an id.
pub open spec fn zone_ids_distinct(s: Seq<BlueprintZoneConfig>) -> bool {
    forall|i: int, j: int| 0 <= i < j < s.len() ==> s[i].id != s[j].id
}

pub open spec fn has_zone(s: Seq<BlueprintZoneConfig>, id: OmicronZoneUuid) -> bool {
    exists|i: int| 0 <= i < s.len() && #[trigger] s[i].id == id
}

/// The zone of `s` with the given id (meaningful where `has_zone(s, id)`).
pub open spec fn zone_with_id(s: Seq<BlueprintZoneConfig>, id: OmicronZoneUuid) -> BlueprintZoneConfig {
    s[choose|i: int| 0 <= i < s.len() && #[trigger] s[i].id == id]
}

/// A zone of the earlier snapshot that the later one holds unchanged.
pub open spec fn unchanged_in(after: Seq<BlueprintZoneConfig>) -> spec_fn(BlueprintZoneConfig) -> bool {
    |b: BlueprintZoneConfig| has_zone(after, b.id) && same_zone(b, zone_with_id(after, b.id))
}

/// A zone of the earlier snapshot whose disposition alone changed.
pub open spec fn modified_in(after: Seq<BlueprintZoneConfig>) -> spec_fn(BlueprintZoneConfig) -> bool {
    |b: BlueprintZoneConfig|
        has_zone(after, b.id) && !same_zone(b, zone_with_id(after, b.id)) && same_structure(
            b,
            zone_with_id(after, b.id),
        )
}

/// A zone of the earlier snapshot whose structural fields changed.
pub open spec fn errored_in(after: Seq<BlueprintZoneConfig>) -> spec_fn(BlueprintZoneConfig) -> bool {
    |b: BlueprintZoneConfig| has_zone(after, b.id) && !same_structure(b, zone_with_id(after, b.id))
}

/// A zone of one snapshot whose id the other snapshot lacks.
pub open spec fn missing_from(other: Seq<BlueprintZoneConfig>) -> spec_fn(BlueprintZoneConfig) -> bool {
    |z: BlueprintZoneConfig| !has_zone(other, z.id)
}

/// The later record of each unchanged zone.
pub open spec fn zones_unchanged(before: Seq<BlueprintZoneConfig>, after: Seq<BlueprintZoneConfig>) -> Seq<BlueprintZoneConfig> {
    before.filter(unchanged_in(after)).map_values(|b: BlueprintZoneConfig| zone_with_id(after, b.id))
}

/// The zones that only the earlier snapshot holds.
pub open spec fn zones_removed(before: Seq<BlueprintZoneConfig>, after: Seq<BlueprintZoneConfig>) -> Seq<BlueprintZoneConfig> {
    before.filter(missing_from(after))
}

/// The zones that only the later snapshot holds.
pub open spec fn zones_added(before: Seq<BlueprintZoneConfig>, after: Seq<BlueprintZoneConfig>) -> Seq<BlueprintZoneConfig> {
    after.filter(missing_from(before))
}

/// The zones whose disposition alone changed, with the earlier disposition.
pub open spec fn zones_modified(before: Seq<BlueprintZoneConfig>, after: Seq<BlueprintZoneConfig>) -> Seq<ModifiedZone> {
    before.filter(modified_in(after)).map_values(
        |b: BlueprintZoneConfig|
            ModifiedZone { prior_disposition: b.disposition, zone: zone_with_id(after, b.id) },
    )
}

/// The earlier records of the zones whose structural fields changed.
pub open spec fn zones_errored(before: Seq<BlueprintZoneConfig>, after: Seq<BlueprintZoneConfig>) -> Seq<BlueprintZoneConfig> {
    before.filter(errored_in(after))
}

/// `errs` are the errors for the zones `bad`, in that order, against the later zones.
pub open spec fn errors_match(errs: Seq<BpDiffZoneError>, bad: Seq<BlueprintZoneConfig>, after: Seq<BlueprintZoneConfig>) -> bool {
    &&& errs.len() == bad.len()
    &&& forall|i: int|
        0 <= i < errs.len() ==> {
            let b = bad[i];
            let a = zone_with_id(after, b.id);
            &&& (#[trigger] errs[i]).zone_before == b
            &&& errs[i].zone_after == a
            &&& errs[i].reason@ == mismatch_reason(b, a)
        }
}

/// `errs` are the errors for the zones whose structural fields changed, in zone order
/// of their earlier records.
pub open spec fn errors_in_zone_order(errs: Seq<BpDiffZoneError>, before: Seq<BlueprintZoneConfig>, after: Seq<BlueprintZoneConfig>) -> bool {
    exists|bad: Seq<BlueprintZoneConfig>|
        #[trigger] zone_ordered_of(bad, zones_errored(before, after)) && errors_match(errs, bad, after)
}

/// `out` holds the records of `expected`, in zone order.
pub open spec fn zone_ordered_of<T: ZoneSortKey>(out: Seq<T>, expected: Seq<T>) -> bool {
    sorted_by_zone_key(out) && out.to_multiset() == expected.to_multiset()
}

/// The position of the zone with the given id.
pub fn find_zone(s: &Vec<BlueprintZoneConfig>, id: OmicronZoneUuid) -> (r: Option<usize>)
    ensures
        match r {
            Some(j) => j < s@.len() && s@[j as int].id == id,
            None => !has_zone(s@, id),
        },
{
    let mut j: usize = 0;
    while j < s.len()
        invariant
            j <= s@.len(),
            forall|k: int| 0 <= k < j ==> s@[k].id != id,
        decreases s@.len() - j,
    {
        if s[j].id == id {
            return Some(j);
        }
        j = j + 1;
    }
    None
}

/// Where ids are distinct, the zone found at a position is the zone with that id.
pub proof fn lemma_zone_with_id(s: Seq<BlueprintZoneConfig>, j: int)
    requires
        zone_ids_distinct(s),
        0 <= j < s.len(),
    ensures
        has_zone(s, s[j].id),
        zone_with_id(s, s[j].id) == s[j],
{
    assert(has_zone(s, s[j].id));
}

/// The zone diff of one sled that both snapshots hold.
pub struct SledZoneDiff {
    pub unchanged: Vec<BlueprintZoneConfig>,
    pub removed: Vec<BlueprintZoneConfig>,
    pub added: Vec<BlueprintZoneConfig>,
    pub modified: Vec<ModifiedZone>,
    pub errors: Vec<BpDiffZoneError>,
}

/// Sorts the zones of one sled into unchanged, removed, added, modified and errored.
pub fn diff_sled_zones(before: &Vec<BlueprintZoneConfig>, after: &Vec<BlueprintZoneConfig>) -> (r: SledZoneDiff)
    requires
        zone_ids_distinct(after@),
    ensures
        zone_ordered_of(r.unchanged@, zones_unchanged(before@, after@)),
        zone_ordered_of(r.removed@, zones_removed(before@, after@)),
        zone_ordered_of(r.added@, zones_added(before@, after@)),
        zone_ordered_of(r.modified@, zones_modified(before@, after@)),
        errors_in_zone_order(r.errors@, before@, after@),
{
    broadcast use vstd::seq_lib::group_to_multiset_ensures;

    let mut unchanged: Vec<BlueprintZoneConfig> = Vec::new();
    let mut removed: Vec<BlueprintZoneConfig> = Vec::new();
    let mut added: Vec<BlueprintZoneConfig> = Vec::new();
    let mut modified: Vec<ModifiedZone> = Vec::new();
    let mut errored: Vec<BlueprintZoneConfig> = Vec::new();
    proof {
        broadcast use vstd::seq_lib::group_filter_ensures;

        assert(before@.take(0).filter(unchanged_in(after@)).len() == 0);
        assert(before@.take(0).filter(modified_in(after@)).len() == 0);
        assert(before@.take(0).filter(errored_in(after@)).len() == 0);
        assert(before@.take(0).filter(missing_from(after@)).len() == 0);
        assert(after@.take(0).filter(missing_from(before@)).len() == 0);
        assert(zones_unchanged(before@.take(0), after@) =~= Seq::empty());
        assert(zones_modified(before@.take(0), after@) =~= Seq::empty());
        assert(zones_removed(before@.take(0), after@) =~= Seq::empty());
        assert(zones_errored(before@.take(0), after@) =~= Seq::empty());
        assert(zones_added(before@, after@.take(0)) =~= Seq::empty());
    }
    let mut i: usize = 0;
    while i < before.len()
        invariant
            i <= before@.len(),
            zone_ids_distinct(after@),
            zone_ordered_of(unchanged@, zones_unchanged(before@.take(i as int), after@)),
            zone_ordered_of(removed@, zones_removed(before@.take(i as int), after@)),
            zone_ordered_of(modified@, zones_modified(before@.take(i as int), after@)),
            zone_ordered_of(errored@, zones_errored(before@.take(i as int), after@)),
        decreases before@.len() - i,
    {
        let b = &before[i];
        let ghost prev = before@.take(i as int);
        proof {
            assert(before@.take(i + 1) =~= prev.push(*b));
            prev.lemma_filter_push(*b, unchanged_in(after@));
            prev.lemma_filter_push(*b, modified_in(after@));
            prev.lemma_filter_push(*b, errored_in(after@));
            prev.lemma_filter_push(*b, missing_from(after@));
        }
        match find_zone(after, b.id) {
            Some(j) => {
                let a = &after[j];
                proof {
                    lemma_zone_with_id(after@, j as int);
                }
                if b.same_as(a) {
                    insert_in_zone_order(&mut unchanged, a.duplicate());
                    proof {
                        let f = |b: BlueprintZoneConfig| zone_with_id(after@, b.id);
                        assert(prev.push(*b).filter(unchanged_in(after@)).map_values(f) =~= prev.filter(
                            unchanged_in(after@),
                        ).map_values(f).push(*a));
                        vstd::seq_lib::to_multiset_build(zones_unchanged(prev, after@), *a);
                    }
                } else {
                    match ModifiedZone::new(b.duplicate(), a.duplicate()) {
                        Ok(m) => {
                            insert_in_zone_order(&mut modified, m);
                            proof {
                                let f = |b: BlueprintZoneConfig|
                                    ModifiedZone {
                                        prior_disposition: b.disposition,
                                        zone: zone_with_id(after@, b.id),
                                    };
                                assert(prev.push(*b).filter(modified_in(after@)).map_values(f)
                                    =~= prev.filter(modified_in(after@)).map_values(f).push(
                                    f(*b),
                                ));
                                vstd::seq_lib::to_multiset_build(zones_modified(prev, after@), f(*b));
                            }
                        },
                        Err(_) => {
                            insert_in_zone_order(&mut errored, b.duplicate());
                            proof {
                                vstd::seq_lib::to_multiset_build(zones_errored(prev, after@), *b);
                            }
                        },
                    }
                }
            },
            None => {
                insert_in_zone_order(&mut removed, b.duplicate());
                proof {
                    vstd::seq_lib::to_multiset_build(zones_removed(prev, after@), *b);
                }
            },
        }
        i = i + 1;
    }
    proof {
        assert(before@.take(before@.len() as int) =~= before@);
    }
    let mut j: usize = 0;
    while j < after.len()
        invariant
            j <= after@.len(),
            zone_ordered_of(added@, zones_added(before@, after@.take(j as int))),
        decreases after@.len() - j,
    {
        let a = &after[j];
        let ghost prev = after@.take(j as int);
        proof {
            assert(after@.take(j + 1) =~= prev.push(*a));
            prev.lemma_filter_push(*a, missing_from(before@));
        }
        if find_zone(before, a.id).is_none() {
            let ghost old_added = added@;
            insert_in_zone_order(&mut added, a.duplicate());
            proof {
                assert(missing_from(before@)(*a));
                assert(zones_added(before@, after@.take(j + 1)) == zones_added(before@, prev).push(*a));
                vstd::seq_lib::to_multiset_build(zones_added(before@, prev), *a);
                assert(added@.to_multiset() == old_added.to_multiset().insert(*a));
            }
        }
        j = j + 1;
    }
    proof {
        assert(after@.take(after@.len() as int) =~= after@);
    }
    let ghost bad = zones_errored(before@, after@);
    let mut errors: Vec<BpDiffZoneError> = Vec::new();
    let mut m: usize = 0;
    while m < errored.len()
        invariant
            m <= errored@.len(),
            zone_ids_distinct(after@),
            bad == zones_errored(before@, after@),
            zone_ordered_of(errored@, bad),
            errors_match(errors@, errored@.take(m as int), after@),
        decreases errored@.len() - m,
    {
        let z = &errored[m];
        proof {
            vstd::seq_lib::to_multiset_contains(errored@, *z);
            vstd::seq_lib::to_multiset_contains(bad, *z);
            let k = choose|k: int| 0 <= k < bad.len() && bad[k] == *z;
            before@.lemma_filter_pred(errored_in(after@), k);
        }
        match find_zone(after, z.id) {
            Some(j) => {
                proof {
                    lemma_zone_with_id(after@, j as int);
                }
                match ModifiedZone::new(z.duplicate(), after[j].duplicate()) {
                    Ok(_) => {},
                    Err(e) => {
                        errors.push(e);
                    },
                }
            },
            None => {},
        }
        proof {
            assert(errored@.take(m + 1) =~= errored@.take(m as int).push(*z));
        }
        m = m + 1;
    }
    proof {
        assert(errored@.take(m as int) =~= errored@);
    }
    SledZoneDiff { unchanged, removed, added, modified, errors }
}

/// The zones that a blueprint places on one sled.
#[derive(Debug)]
pub struct BlueprintZonesConfig {
    pub generation: Generation,
    pub zones: Vec<BlueprintZoneConfig>,
}

/// The zones that an inventory collection observed on one sled.
#[derive(Debug)]
pub struct OmicronZonesConfig {
    pub zones: Vec<OmicronZoneConfig>,
}

/// The zones of one sled in the earlier snapshot, which is a blueprint or a collection.
#[derive(Debug)]
pub enum BlueprintOrCollectionZonesConfig {
    Collection(OmicronZonesConfig),
    Blueprint(BlueprintZonesConfig),
}

impl BlueprintOrCollectionZonesConfig {
    /// The generation: a collection has none.
    pub open spec fn spec_generation(&self) -> Option<Generation> {
        match self {
            BlueprintOrCollectionZonesConfig::Collection(_) => None,
            BlueprintOrCollectionZonesConfig::Blueprint(c) => Some(c.generation),
        }
    }

    /// The zones, each as a zone record.
    pub open spec fn spec_zones(&self) -> Seq<BlueprintZoneConfig> {
        match self {
            BlueprintOrCollectionZonesConfig::Collection(c) => c.zones@.map_values(
                |z: OmicronZoneConfig| observed_as_blueprint(z),
            ),
            BlueprintOrCollectionZonesConfig::Blueprint(c) => c.zones@,
        }
    }

    pub fn generation(&self) -> (r: Option<Generation>)
        ensures
            r == self.spec_generation(),
    {
        match self {
            BlueprintOrCollectionZonesConfig::Collection(_) => None,
            BlueprintOrCollectionZonesConfig::Blueprint(c) => Some(c.generation),
        }
    }

    pub fn zones(&self) -> (r: Vec<BlueprintZoneConfig>)
        ensures
            r@ == self.spec_zones(),
    {
        match self {
            BlueprintOrCollectionZonesConfig::Collection(c) => {
                let mut r: Vec<BlueprintZoneConfig> = Vec::new();
                let mut i: usize = 0;
                while i < c.zones.len()
                    invariant
                        i <= c.zones@.len(),
                        r@ =~= c.zones@.take(i as int).map_values(
                            |z: OmicronZoneConfig| observed_as_blueprint(z),
                        ),
                    decreases c.zones@.len() - i,
                {
                    r.push(c.zones[i].to_blueprint());
                    i = i + 1;
                }
                proof {
                    assert(c.zones@.take(i as int) =~= c.zones@);
                }
                r
            },
            BlueprintOrCollectionZonesConfig::Blueprint(c) => copy_zones(&c.zones),
        }
    }
}

/// A copy of a list of zone records.
pub fn copy_zones(s: &Vec<BlueprintZoneConfig>) -> (r: Vec<BlueprintZoneConfig>)
    ensures
        r@ == s@,
{
    let mut r: Vec<BlueprintZoneConfig> = Vec::new();
    let mut i: usize = 0;
    while i < s.len()
        invariant
            i <= s@.len(),
            r@ =~= s@.take(i as int),
        decreases s@.len() - i,
    {
        r.push(s[i].duplicate());
        i = i + 1;
    }
    proof {
        assert(s@.take(i as int) =~= s@);
    }
    r
}

/// Unchanged, removed or added zones of one sled.
#[derive(Debug)]
pub struct BpDiffZoneDetails {
    pub generation_before: Option<Generation>,
    pub generation_after: Option<Generation>,
    pub zones: Vec<BlueprintZoneConfig>,
}

/// Modified zones of one sled.
#[derive(Debug)]
pub struct BpDiffZonesModified {
    pub generation_before: Option<Generation>,
    pub generation_after: Option<Generation>,
    pub zones: Vec<ModifiedZone>,
}

/// Zones of one sled whose structural fields changed.
#[derive(Debug)]
pub struct BpDiffZoneErrors {
    pub generation_before: Option<Generation>,
    pub generation_after: Option<Generation>,
    pub errors: Vec<BpDiffZoneError>,
}

/// All zones across all sleds, by what happened to them.
#[derive(Debug)]
pub struct BpDiffZones {
    pub added: SledMap<BpDiffZoneDetails>,
    pub removed: SledMap<BpDiffZoneDetails>,
    pub unchanged: SledMap<BpDiffZoneDetails>,
    pub modified: SledMap<BpDiffZonesModified>,
    pub errors: SledMap<BpDiffZoneErrors>,
}

/// The zones that the earlier snapshot holds for sled `k` (none where it lacks the sled).
pub open spec fn zones_before_of(before: SledMap<BlueprintOrCollectionZonesConfig>, k: SledUuid) -> Seq<BlueprintZoneConfig> {
    if before@.contains_key(k) {
        before@[k].spec_zones()
    } else {
        Seq::empty()
    }
}

/// The zones that the later snapshot holds for sled `k` (none where it lacks the sled).
pub open spec fn zones_after_of(after: SledMap<BlueprintZonesConfig>, k: SledUuid) -> Seq<BlueprintZoneConfig> {
    if after@.contains_key(k) {
        after@[k].zones@
    } else {
        Seq::empty()
    }
}

pub open spec fn zone_generation_before(before: SledMap<BlueprintOrCollectionZonesConfig>, k: SledUuid) -> Option<Generation> {
    if before@.contains_key(k) {
        before@[k].spec_generation()
    } else {
        None
    }
}

pub open spec fn zone_generation_after(after: SledMap<BlueprintZonesConfig>, k: SledUuid) -> Option<Generation> {
    if after@.contains_key(k) {
        Some(after@[k].generation)
    } else {
        None
    }
}

/// Every sled's zone list has distinct ids.
pub open spec fn zones_before_wf(m: SledMap<BlueprintOrCollectionZonesConfig>) -> bool {
    m.wf() && forall|k: SledUuid| #[trigger] m@.contains_key(k) ==> zone_ids_distinct(m@[k].spec_zones())
}

/// Every sled's zone list has distinct ids.
pub open spec fn zones_after_wf(m: SledMap<BlueprintZonesConfig>) -> bool {
    m.wf() && forall|k: SledUuid| #[trigger] m@.contains_key(k) ==> zone_ids_distinct(m@[k].zones@)
}

pub open spec fn zone_details_are(d: BpDiffZoneDetails, gb: Option<Generation>, ga: Option<Generation>, expected: Seq<BlueprintZoneConfig>) -> bool {
    d.generation_before == gb && d.generation_after == ga && zone_ordered_of(d.zones@, expected)
}

impl BpDiffZones {
    /// No sled holds zones in any bucket.
    pub open spec fn lacks(&self, k: SledUuid) -> bool {
        &&& !self.added@.contains_key(k)
        &&& !self.removed@.contains_key(k)
        &&& !self.unchanged@.contains_key(k)
        &&& !self.modified@.contains_key(k)
        &&& !self.errors@.contains_key(k)
    }

    pub open spec fn wf(&self) -> bool {
        self.added.wf() && self.removed.wf() && self.unchanged.wf() && self.modified.wf()
            && self.errors.wf()
    }

    /// The buckets of sled `k` are those of the zone lists `bs` (earlier) and `az` (later),
    /// with the generations `gb` and `ga`; a bucket that would be empty is left out.
    pub open spec fn sled_is(&self, k: SledUuid, bs: Seq<BlueprintZoneConfig>, az: Seq<BlueprintZoneConfig>, gb: Option<Generation>, ga: Option<Generation>) -> bool {
        &&& self.added@.contains_key(k) <==> zones_added(bs, az).len() > 0
        &&& self.added@.contains_key(k) ==> zone_details_are(self.added@[k], gb, ga, zones_added(bs, az))
        &&& self.removed@.contains_key(k) <==> zones_removed(bs, az).len() > 0
        &&& self.removed@.contains_key(k) ==> zone_details_are(self.removed@[k], gb, ga, zones_removed(bs, az))
        &&& self.unchanged@.contains_key(k) <==> zones_unchanged(bs, az).len() > 0
        &&& self.unchanged@.contains_key(k) ==> zone_details_are(self.unchanged@[k], gb, ga, zones_unchanged(bs, az))
        &&& self.modified@.contains_key(k) <==> zones_modified(bs, az).len() > 0
        &&& self.modified@.contains_key(k) ==> {
            let d = self.modified@[k];
            d.generation_before == gb && d.generation_after == ga
                && zone_ordered_of(d.zones@, zones_modified(bs, az))
        }
        &&& self.errors@.contains_key(k) <==> zones_errored(bs, az).len() > 0
        &&& self.errors@.contains_key(k) ==> {
            let d = self.errors@[k];
            d.generation_before == gb && d.generation_after == ga
                && errors_in_zone_order(d.errors@, bs, az)
        }
    }

    /// The zone diff of two snapshots: for each sled, its zones by what happened to them.
    pub open spec fn is_diff_of(&self, before: SledMap<BlueprintOrCollectionZonesConfig>, after: SledMap<BlueprintZonesConfig>) -> bool {
        forall|k: SledUuid| #[trigger]
            self.sled_is(
                k,
                zones_before_of(before, k),
                zones_after_of(after, k),
                zone_generation_before(before, k),
                zone_generation_after(after, k),
            )
    }

    fn empty() -> (r: Self)
        ensures
            r.wf(),
            forall|k: SledUuid| r.lacks(k),
    {
        BpDiffZones {
            added: SledMap::new(),
            removed: SledMap::new(),
            unchanged: SledMap::new(),
            modified: SledMap::new(),
            errors: SledMap::new(),
        }
    }

    /// Files the zone diff `d` of sled `k` under its buckets.
    fn record_sled(&mut self, k: SledUuid, gb: Option<Generation>, ga: Option<Generation>, d: SledZoneDiff, bs: Ghost<Seq<BlueprintZoneConfig>>, az: Ghost<Seq<BlueprintZoneConfig>>)
        requires
            old(self).wf(),
            old(self).lacks(k),
            zone_ordered_of(d.unchanged@, zones_unchanged(bs@, az@)),
            zone_ordered_of(d.removed@, zones_removed(bs@, az@)),
            zone_ordered_of(d.added@, zones_added(bs@, az@)),
            zone_ordered_of(d.modified@, zones_modified(bs@, az@)),
            errors_in_zone_order(d.errors@, bs@, az@),
        ensures
            final(self).wf(),
            final(self).sled_is(k, bs@, az@, gb, ga),
            final(self).added@.remove(k) == old(self).added@.remove(k),
            final(self).removed@.remove(k) == old(self).removed@.remove(k),
            final(self).unchanged@.remove(k) == old(self).unchanged@.remove(k),
            final(self).modified@.remove(k) == old(self).modified@.remove(k),
            final(self).errors@.remove(k) == old(self).errors@.remove(k),
    {
        proof {
            vstd::seq_lib::to_multiset_len(d.unchanged@);
            vstd::seq_lib::to_multiset_len(zones_unchanged(bs@, az@));
            vstd::seq_lib::to_multiset_len(d.removed@);
            vstd::seq_lib::to_multiset_len(zones_removed(bs@, az@));
            vstd::seq_lib::to_multiset_len(d.added@);
            vstd::seq_lib::to_multiset_len(zones_added(bs@, az@));
            vstd::seq_lib::to_multiset_len(d.modified@);
            vstd::seq_lib::to_multiset_len(zones_modified(bs@, az@));
            let bad = choose|bad: Seq<BlueprintZoneConfig>|
                #[trigger] zone_ordered_of(bad, zones_errored(bs@, az@)) && errors_match(d.errors@, bad, az@);
            vstd::seq_lib::to_multiset_len(bad);
            vstd::seq_lib::to_multiset_len(zones_errored(bs@, az@));
        }
        let SledZoneDiff { unchanged, removed, added, modified, errors } = d;
        if unchanged.len() > 0 {
            self.unchanged.insert(
                k,
                BpDiffZoneDetails { generation_before: gb, generation_after: ga, zones: unchanged },
            );
        }
        if removed.len() > 0 {
            self.removed.insert(
                k,
                BpDiffZoneDetails { generation_before: gb, generation_after: ga, zones: removed },
            );
        }
        if added.len() > 0 {
            self.added.insert(
                k,
                BpDiffZoneDetails { generation_before: gb, generation_after: ga, zones: added },
            );
        }
        if modified.len() > 0 {
            self.modified.insert(
                k,
                BpDiffZonesModified { generation_before: gb, generation_after: ga, zones: modified },
            );
        }
        if errors.len() > 0 {
            self.errors.insert(
                k,
                BpDiffZoneErrors { generation_before: gb, generation_after: ga, errors },
            );
        }
        proof {
            assert(self.added@.remove(k) =~= old(self).added@.remove(k));
            assert(self.removed@.remove(k) =~= old(self).removed@.remove(k));
            assert(self.unchanged@.remove(k) =~= old(self).unchanged@.remove(k));
            assert(self.modified@.remove(k) =~= old(self).modified@.remove(k));
            assert(self.errors@.remove(k) =~= old(self).errors@.remove(k));
        }
    }

    /// Compares the zones of the earlier snapshot `before` with those of the later one
    /// `after`, sled by sled.
    pub fn new(before: SledMap<BlueprintOrCollectionZonesConfig>, after: SledMap<BlueprintZonesConfig>) -> (r: Self)
        requires
            zones_before_wf(before),
            zones_after_wf(after),
        ensures
            r.wf(),
            r.is_diff_of(before, after),
    {
        broadcast use vstd::seq_lib::group_filter_ensures;

        let mut diffs = BpDiffZones::empty();
        let mut i: usize = 0;
        while i < before.entries.len()
            invariant
                i <= before.entries@.len(),
                zones_before_wf(before),
                zones_after_wf(after),
                diffs.wf(),
                forall|k: SledUuid|
                    #![trigger diffs.lacks(k)]
                    #![trigger diffs.sled_is(k, zones_before_of(before, k), zones_after_of(after, k), zone_generation_before(before, k), zone_generation_after(after, k))]
                    if exists|j: int| 0 <= j < i && #[trigger] before.entries@[j].0 == k {
                        diffs.sled_is(
                            k,
                            zones_before_of(before, k),
                            zones_after_of(after, k),
                            zone_generation_before(before, k),
                            zone_generation_after(after, k),
                        )
                    } else {
                        diffs.lacks(k)
                    },
            decreases before.entries@.len() - i,
        {
            let k = before.entries[i].0;
            let cfg = &before.entries[i].1;
            proof {
                before.lemma_entry(i as int);
                assert(!exists|j: int| 0 <= j < i && #[trigger] before.entries@[j].0 == k);
            }
            let bz = cfg.zones();
            let gb = cfg.generation();
            let empty: Vec<BlueprintZoneConfig> = Vec::new();
            let (d, ga, az) = match after.get(k) {
                Some(a) => (diff_sled_zones(&bz, &a.zones), Some(a.generation), Ghost(a.zones@)),
                None => (diff_sled_zones(&bz, &empty), None, Ghost(empty@)),
            };
            let ghost old_diffs = diffs;
            diffs.record_sled(k, gb, ga, d, Ghost(bz@), az);
            proof {
                assert forall|k2: SledUuid|
                    #![trigger diffs.lacks(k2)]
                    #![trigger diffs.sled_is(k2, zones_before_of(before, k2), zones_after_of(after, k2), zone_generation_before(before, k2), zone_generation_after(after, k2))]
                    if exists|j: int| 0 <= j < i + 1 && #[trigger] before.entries@[j].0 == k2 {
                        diffs.sled_is(
                            k2,
                            zones_before_of(before, k2),
                            zones_after_of(after, k2),
                            zone_generation_before(before, k2),
                            zone_generation_after(after, k2),
                        )
                    } else {
                        diffs.lacks(k2)
                    } by {
                    if k2 != k {
                        lemma_same_elsewhere(
                            diffs,
                            old_diffs,
                            k,
                            k2,
                            zones_before_of(before, k2),
                            zones_after_of(after, k2),
                            zone_generation_before(before, k2),
                            zone_generation_after(after, k2),
                        );
                        if exists|j: int| 0 <= j < i + 1 && #[trigger] before.entries@[j].0 == k2 {
                            let j = choose|j: int| 0 <= j < i + 1 && #[trigger] before.entries@[j].0 == k2;
                            assert(j < i);
                        }
                    } else {
                        assert(before.entries@[i as int].0 == k2);
                    }
                }
            }
            i = i + 1;
        }
        proof {
            assert forall|k: SledUuid| #[trigger] before@.contains_key(k) == (exists|j: int| 0 <= j < before.entries@.len() && #[trigger] before.entries@[j].0 == k) by {}
        }
        let mut i: usize = 0;
        while i < after.entries.len()
            invariant
                i <= after.entries@.len(),
                zones_before_wf(before),
                zones_after_wf(after),
                diffs.wf(),
                forall|k: SledUuid|
                    #![trigger diffs.lacks(k)]
                    #![trigger diffs.sled_is(k, zones_before_of(before, k), zones_after_of(after, k), zone_generation_before(before, k), zone_generation_after(after, k))]
                    if before@.contains_key(k) || exists|j: int| 0 <= j < i && #[trigger] after.entries@[j].0 == k {
                        diffs.sled_is(
                            k,
                            zones_before_of(before, k),
                            zones_after_of(after, k),
                            zone_generation_before(before, k),
                            zone_generation_after(after, k),
                        )
                    } else {
                        diffs.lacks(k)
                    },
            decreases after.entries@.len() - i,
        {
            let k = after.entries[i].0;
            let cfg = &after.entries[i].1;
            proof {
                after.lemma_entry(i as int);
                assert(!exists|j: int| 0 <= j < i && #[trigger] after.entries@[j].0 == k);
            }
            if !before.contains_key(k) {
                let empty: Vec<BlueprintZoneConfig> = Vec::new();
                let d = diff_sled_zones(&empty, &cfg.zones);
                let ghost old_diffs = diffs;
                diffs.record_sled(k, None, Some(cfg.generation), d, Ghost(empty@), Ghost(cfg.zones@));
                proof {
                    assert forall|k2: SledUuid|
                        #![trigger diffs.lacks(k2)]
                        #![trigger diffs.sled_is(k2, zones_before_of(before, k2), zones_after_of(after, k2), zone_generation_before(before, k2), zone_generation_after(after, k2))]
                        if before@.contains_key(k2) || exists|j: int| 0 <= j < i + 1 && #[trigger] after.entries@[j].0 == k2 {
                            diffs.sled_is(
                                k2,
                                zones_before_of(before, k2),
                                zones_after_of(after, k2),
                                zone_generation_before(before, k2),
                                zone_generation_after(after, k2),
                            )
                        } else {
                            diffs.lacks(k2)
                        } by {
                        if k2 != k {
                            lemma_same_elsewhere(
                                diffs,
                                old_diffs,
                                k,
                                k2,
                                zones_before_of(before, k2),
                                zones_after_of(after, k2),
                                zone_generation_before(before, k2),
                                zone_generation_after(after, k2),
                            );
                            if exists|j: int| 0 <= j < i + 1 && #[trigger] after.entries@[j].0 == k2 {
                                let j = choose|j: int| 0 <= j < i + 1 && #[trigger] after.entries@[j].0 == k2;
                                assert(j < i);
                            }
                        } else {
                            assert(after.entries@[i as int].0 == k2);
                        }
                    }
                }
            } else {
                proof {
                    assert forall|k2: SledUuid|
                        #![trigger diffs.lacks(k2)]
                        #![trigger diffs.sled_is(k2, zones_before_of(before, k2), zones_after_of(after, k2), zone_generation_before(before, k2), zone_generation_after(after, k2))]
                        if before@.contains_key(k2) || exists|j: int| 0 <= j < i + 1 && #[trigger] after.entries@[j].0 == k2 {
                            diffs.sled_is(
                                k2,
                                zones_before_of(before, k2),
                                zones_after_of(after, k2),
                                zone_generation_before(before, k2),
                                zone_generation_after(after, k2),
                            )
                        } else {
                            diffs.lacks(k2)
                        } by {
                        if exists|j: int| 0 <= j < i + 1 && #[trigger] after.entries@[j].0 == k2 {
                            let j = choose|j: int| 0 <= j < i + 1 && #[trigger] after.entries@[j].0 == k2;
                            if j == i {
                                assert(before@.contains_key(k2));
                            }
                        }
                    }
                }
            }
            i = i + 1;
        }
        proof {
            assert forall|k: SledUuid|
                #[trigger] diffs.sled_is(
                    k,
                    zones_before_of(before, k),
                    zones_after_of(after, k),
                    zone_generation_before(before, k),
                    zone_generation_after(after, k),
                ) by {
                if !before@.contains_key(k) && !after@.contains_key(k) {
                    if exists|j: int| 0 <= j < i && #[trigger] after.entries@[j].0 == k {
                        let j = choose|j: int| 0 <= j < i && #[trigger] after.entries@[j].0 == k;
                        after.lemma_entry(j);
                    }
                    assert(diffs.lacks(k));
                    lemma_empty_sled(diffs, k);
                }
            }
        }
        diffs
    }
}

/// A sled that neither snapshot holds has no zones in any bucket.
proof fn lemma_empty_sled(d: BpDiffZones, k: SledUuid)
    requires
        d.lacks(k),
    ensures
        d.sled_is(k, Seq::empty(), Seq::empty(), None, None),
{
    broadcast use vstd::seq_lib::group_filter_ensures;

    let e = Seq::<BlueprintZoneConfig>::empty();
    assert(e.filter(unchanged_in(e)).len() == 0);
    assert(e.filter(modified_in(e)).len() == 0);
    assert(e.filter(errored_in(e)).len() == 0);
    assert(e.filter(missing_from(e)).len() == 0);
}

/// Two zone diffs that differ at most at sled `k` agree on every other sled.
proof fn lemma_same_elsewhere(a: BpDiffZones, b: BpDiffZones, k: SledUuid, k2: SledUuid, bs: Seq<BlueprintZoneConfig>, az: Seq<BlueprintZoneConfig>, gb: Option<Generation>, ga: Option<Generation>)
    requires
        k != k2,
        a.added@.remove(k) == b.added@.remove(k),
        a.removed@.remove(k) == b.removed@.remove(k),
        a.unchanged@.remove(k) == b.unchanged@.remove(k),
        a.modified@.remove(k) == b.modified@.remove(k),
        a.errors@.remove(k) == b.errors@.remove(k),
    ensures
        a.lacks(k2) == b.lacks(k2),
        a.sled_is(k2, bs, az, gb, ga) == b.sled_is(k2, bs, az, gb, ga),
{
    assert(a.added@.remove(k).contains_key(k2) == a.added@.contains_key(k2));
    assert(b.added@.remove(k).contains_key(k2) == b.added@.contains_key(k2));
    assert(a.removed@.remove(k).contains_key(k2) == a.removed@.contains_key(k2));
    assert(b.removed@.remove(k).contains_key(k2) == b.removed@.contains_key(k2));
    assert(a.unchanged@.remove(k).contains_key(k2) == a.unchanged@.contains_key(k2));
    assert(b.unchanged@.remove(k).contains_key(k2) == b.unchanged@.contains_key(k2));
    assert(a.modified@.remove(k).contains_key(k2) == a.modified@.contains_key(k2));
    assert(b.modified@.remove(k).contains_key(k2) == b.modified@.contains_key(k2));
    assert(a.errors@.remove(k).contains_key(k2) == a.errors@.contains_key(k2));
    assert(b.errors@.remove(k).contains_key(k2) == b.errors@.contains_key(k2));
    if a.added@.contains_key(k2) {
        assert(a.added@[k2] == a.added@.remove(k)[k2]);
        assert(b.added@[k2] == b.added@.remove(k)[k2]);
    }
    if a.removed@.contains_key(k2) {
        assert(a.removed@[k2] == a.removed@.remove(k)[k2]);
        assert(b.removed@[k2] == b.removed@.remove(k)[k2]);
    }
    if a.unchanged@.contains_key(k2) {
        assert(a.unchanged@[k2] == a.unchanged@.remove(k)[k2]);
        assert(b.unchanged@[k2] == b.unchanged@.remove(k)[k2]);
    }
    if a.modified@.contains_key(k2) {
        assert(a.modified@[k2] == a.modified@.remove(k)[k2]);
        assert(b.modified@[k2] == b.modified@.remove(k)[k2]);
    }
    if a.errors@.contains_key(k2) {
        assert(a.errors@[k2] == a.errors@.remove(k)[k2]);
        assert(b.errors@[k2] == b.errors@.remove(k)[k2]);
    }
}

} // verus!
