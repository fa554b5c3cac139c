use std::str::FromStr;

use reconfig_diff::zfs::{
    contains_text, omicron_datasets_for_delete, DatasetProperties, DestroyDatasetErrorVariant,
    ExecutionError, GetValueErrorRaw, PropertySource, Snapshot, Zfs,
};

#[test]
fn oxide_property_names() {
    assert_eq!(Zfs::oxide_property("epoch"), "oxide:epoch");
    assert_eq!(
        Zfs::set_oxide_value("rpool/data", "epoch", "3"),
        vec!["/usr/sbin/zfs".to_string(), "set".to_string(), "oxide:epoch=3".to_string(), "rpool/data".to_string()]
    );
}

#[test]
fn get_value_reads_first_line_trimmed() {
    let v = Zfs::get_value("rpool/data", "mountpoint", "  /data \n/other\n").expect("a value");
    assert_eq!(v, "/data");
    let v = Zfs::get_value("rpool/data", "mountpoint", "").expect("no output reads as empty");
    assert_eq!(v, "");
}

#[test]
fn get_value_missing() {
    let e = Zfs::get_oxide_value("rpool/data", "uuid", "-\n").expect_err("missing value");
    assert_eq!(e.filesystem, "rpool/data");
    assert_eq!(e.name, "oxide:uuid");
    assert!(matches!(e.err, GetValueErrorRaw::MissingValue));
}

#[test]
fn property_sources_and_snapshots() {
    assert_eq!(PropertySource::Local.as_str(), "local");
    assert_eq!(PropertySource::NoSource.as_str(), "none");
    let s = Snapshot { filesystem: "rpool/zone".to_string(), snap_name: "s1".to_string() };
    assert_eq!(s.to_text(), "rpool/zone@s1");
}

#[test]
fn parse_dataset_props() {
    let input = "-       dataset_name        1234   5678   0       0       off";
    let props = DatasetProperties::from_str(&input).expect("Should have parsed data");

    assert_eq!(props.id, None);
    assert_eq!(props.name, "dataset_name");
    assert_eq!(props.avail.to_bytes(), 1234);
    assert_eq!(props.used.to_bytes(), 5678);
    assert_eq!(props.quota, None);
    assert_eq!(props.reservation, None);
    assert_eq!(props.compression, "off");
}

#[test]
fn parse_dataset_props_with_optionals() {
    let input = "d4e1e554-7b98-4413-809e-4a42561c3d0c       dataset_name        1234   5678   111       222       off";
    let props = DatasetProperties::from_str(&input).expect("Should have parsed data");

    assert_eq!(
        props.id,
        Some("d4e1e554-7b98-4413-809e-4a42561c3d0c".parse::<uuid::Uuid>().unwrap().as_u128())
    );
    assert_eq!(props.name, "dataset_name");
    assert_eq!(props.avail.to_bytes(), 1234);
    assert_eq!(props.used.to_bytes(), 5678);
    assert_eq!(props.quota.map(|q| q.to_bytes()), Some(111));
    assert_eq!(props.reservation.map(|r| r.to_bytes()), Some(222));
    assert_eq!(props.compression, "off");
}

#[test]
fn parse_dataset_bad_uuid() {
    let input = "bad       dataset_name        1234   5678   111       222       off";
    let err = DatasetProperties::from_str(&input).expect_err("Should have failed to parse");
    assert!(err.message().contains("error parsing UUID (dataset)"), "{}", err.message());
}

#[test]
fn parse_dataset_bad_avail() {
    let input = "-       dataset_name        BADAVAIL   5678   111       222       off";
    let err = DatasetProperties::from_str(&input).expect_err("Should have failed to parse");
    assert!(err.message().contains("invalid digit found in string"), "{}", err.message());
}

#[test]
fn parse_dataset_bad_usage() {
    let input = "-       dataset_name        1234   BADUSAGE   111       222       off";
    let err = DatasetProperties::from_str(&input).expect_err("Should have failed to parse");
    assert!(err.message().contains("invalid digit found in string"), "{}", err.message());
}

#[test]
fn parse_dataset_bad_quota() {
    let input = "-       dataset_name        1234   5678   BADQUOTA      222       off";
    let err = DatasetProperties::from_str(&input).expect_err("Should have failed to parse");
    assert!(err.message().contains("invalid digit found in string"), "{}", err.message());
}

#[test]
fn parse_dataset_bad_reservation() {
    let input = "-       dataset_name        1234   5678   111      BADRES       off";
    let err = DatasetProperties::from_str(&input).expect_err("Should have failed to parse");
    assert!(err.message().contains("invalid digit found in string"), "{}", err.message());
}

#[test]
fn parse_dataset_missing_fields() {
    let expect_missing = |input: &str, what: &str| {
        let err = DatasetProperties::from_str(input).expect_err("Should have failed to parse");
        let err = err.message();
        assert!(err.contains(&format!("Missing {what}")), "{err}");
    };

    expect_missing("-       dataset_name        1234   5678   111      222", "'compression'");
    expect_missing("-       dataset_name        1234   5678   111", "'reservation'");
    expect_missing("-       dataset_name        1234   5678", "'quota'");
    expect_missing("-       dataset_name        1234", "'used'");
    expect_missing("-       dataset_name", "'avail'");
    expect_missing("-", "'name'");
    expect_missing("", "UUID");
}

#[test]
fn parse_dataset_number_limits() {
    let err = DatasetProperties::from_str("- d 18446744073709551616 1 0 0 off").expect_err("overflow");
    assert!(err.message().contains("number too large to fit in target type"), "{}", err.message());
    let err = DatasetProperties::from_str("- d 9223372036854775808 1 0 0 off").expect_err("above i64::MAX");
    assert!(err.message().ends_with("byte count too large"), "{}", err.message());
    let props = DatasetProperties::from_str("- d +9223372036854775807 1 0 0 lz4").expect("largest count");
    assert_eq!(props.avail.to_bytes(), 9223372036854775807);
    assert_eq!(props.compression, "lz4");
}

#[test]
fn destroy_dataset_errors() {
    assert_eq!(
        Zfs::destroy_dataset("oxp_1/crypt/zone"),
        vec!["/usr/sbin/zfs".to_string(), "destroy".to_string(), "-r".to_string(), "oxp_1/crypt/zone".to_string()]
    );
    let e = Zfs::destroy_dataset_error(
        "oxp_1/x",
        ExecutionError { message: "failed".to_string() },
        "cannot open 'oxp_1/x': dataset does not exist\n",
    );
    assert_eq!(e.name, "oxp_1/x");
    assert!(matches!(e.err, DestroyDatasetErrorVariant::NotFound));
    let e = Zfs::destroy_dataset_error("oxp_1/x", ExecutionError { message: "busy".to_string() }, "dataset is busy");
    match e.err {
        DestroyDatasetErrorVariant::Other(err) => assert_eq!(err.message, "busy"),
        DestroyDatasetErrorVariant::NotFound => panic!("not a missing dataset"),
    }
}

#[test]
fn text_search() {
    assert!(contains_text("abc does not exist", "does not exist"));
    assert!(contains_text("x", ""));
    assert!(!contains_text("does not exis", "does not exist"));
}

#[test]
fn datasets_for_delete_keep_internal_data() {
    let datasets: Vec<String> =
        ["crash", "backing", "backing/a", "swap", "cockroachdb", "backingx"].iter().map(|s| s.to_string()).collect();
    assert_eq!(
        omicron_datasets_for_delete("oxi_1", true, &datasets),
        vec!["oxi_1/cockroachdb".to_string(), "oxi_1/backingx".to_string()]
    );
    assert_eq!(omicron_datasets_for_delete("oxp_2", false, &datasets).len(), 6);
    assert_eq!(omicron_datasets_for_delete("oxp_2", false, &datasets)[0], "oxp_2/crash");
}
