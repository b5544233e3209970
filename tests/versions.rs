use nvm_core::catalog::{format_version_display, LtsInfo, NodeVersion, VersionFilter};
use nvm_core::semver::{
    is_full_version_str, normalize_version, sort_versions, version_key_of, version_number,
};

fn record(version: &str, lts: LtsInfo, files: Vec<&str>) -> NodeVersion {
    NodeVersion {
        version: version.to_string(),
        lts,
        files: files.into_iter().map(|f| f.to_string()).collect(),
        date: "".to_string(),
        npm: None,
        v8: None,
        uv: None,
        zlib: None,
        openssl: None,
        modules: None,
        security: false,
    }
}

#[test]
fn test_normalize_version() {
    assert_eq!(normalize_version("18.0.0"), "v18.0.0");
    assert_eq!(normalize_version("v18.0.0"), "v18.0.0");
}

#[test]
fn normalize_empty_gives_v() {
    assert_eq!(normalize_version(""), "v");
}

#[test]
fn version_number_strips_one_v() {
    assert_eq!(version_number("v18.0.0"), "18.0.0");
    assert_eq!(version_number("18.0.0"), "18.0.0");
    assert_eq!(version_number("vv1"), "v1");
}

#[test]
fn sort_order_descending() {
    let mut v = vec!["v9.0.0".to_string(), "v18.0.0".to_string(), "v18.10.0".to_string()];
    sort_versions(&mut v);
    assert_eq!(v, vec!["v18.10.0", "v18.0.0", "v9.0.0"]);
}

#[test]
fn sort_treats_missing_and_non_numeric_fields_as_zero() {
    let mut v = vec!["v1.x.5".to_string(), "v1.0.4".to_string(), "v2".to_string(), "v1.1".to_string()];
    sort_versions(&mut v);
    assert_eq!(v, vec!["v2", "v1.1", "v1.x.5", "v1.0.4"]);
}

#[test]
fn sort_of_empty_list() {
    let mut v: Vec<String> = vec![];
    sort_versions(&mut v);
    assert!(v.is_empty());
}

#[test]
fn version_key_reads_three_fields() {
    let k = version_key_of("v20.10.3");
    assert_eq!((k.major, k.minor, k.patch), (20, 10, 3));
    let k = version_key_of("7");
    assert_eq!((k.major, k.minor, k.patch), (7, 0, 0));
    let k = version_key_of("v99999999999.1.2");
    assert_eq!((k.major, k.minor, k.patch), (0, 1, 2));
}

#[test]
fn full_version_grammar() {
    assert!(is_full_version_str("v18.19.0"));
    assert!(is_full_version_str("18.19.0"));
    assert!(!is_full_version_str("v18.19"));
    assert!(!is_full_version_str("v18.x.0"));
    assert!(!is_full_version_str("v18..0"));
    assert!(!is_full_version_str("v1.2.3.4"));
    assert!(!is_full_version_str(""));
}

#[test]
fn lts_info_accessors() {
    assert!(LtsInfo::Name("Iron".to_string()).is_lts());
    assert!(LtsInfo::Bool(true).is_lts());
    assert!(!LtsInfo::Bool(false).is_lts());
    assert_eq!(LtsInfo::Name("Iron".to_string()).name(), Some("Iron"));
    assert_eq!(LtsInfo::Bool(true).name(), None);
}

#[test]
fn filter_lts_only() {
    let versions = vec![
        record("v21.0.0", LtsInfo::Bool(false), vec![]),
        record("v20.10.0", LtsInfo::Name("Iron".to_string()), vec![]),
        record("v18.19.0", LtsInfo::Name("Hydrogen".to_string()), vec![]),
    ];
    let out = VersionFilter::new().lts_only().apply(versions);
    let names: Vec<&str> = out.iter().map(|v| v.version.as_str()).collect();
    assert_eq!(names, vec!["v20.10.0", "v18.19.0"]);
}

#[test]
fn filter_latest_and_platform() {
    let versions = vec![
        record("v21.0.0", LtsInfo::Bool(false), vec!["linux-x64", "win-x64-zip"]),
        record("v20.0.0", LtsInfo::Bool(false), vec!["OSX-x64-TAR.GZ", "linux-x64.tar.gz"]),
        record("v19.0.0", LtsInfo::Bool(false), vec!["darwin-arm64.tar.gz"]),
    ];
    let out = VersionFilter::new().platform("Linux".to_string()).apply(versions.clone());
    assert_eq!(out.len(), 1);
    assert_eq!(out[0].version, "v20.0.0");
    let out = VersionFilter::new().platform("MacOS".to_string()).apply(versions.clone());
    assert_eq!(out.len(), 1);
    assert_eq!(out[0].version, "v19.0.0");
    let out = VersionFilter::new().latest_only().apply(versions.clone());
    assert_eq!(out.len(), 1);
    assert_eq!(out[0].version, "v21.0.0");
    let out = VersionFilter::new().latest_only().apply(vec![]);
    assert!(out.is_empty());
    let out = VersionFilter::new().platform("windows".to_string()).apply(versions);
    assert_eq!(out.len(), 1);
    assert_eq!(out[0].version, "v21.0.0");
}

#[test]
fn display_line_shows_codename() {
    let v = record("v20.10.0", LtsInfo::Name("Iron".to_string()), vec![]);
    assert_eq!(format_version_display(&v), "  v20.10.0 (LTS: Iron)");
    let v = record("v21.0.0", LtsInfo::Bool(false), vec![]);
    assert_eq!(format_version_display(&v), "  v21.0.0");
}
