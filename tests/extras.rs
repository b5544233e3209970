use nvm_core::active::{removal_for_pointer, Platform, PointerKind, Removal};
use nvm_core::catalog::{
    alias_target_known, find_record, installed_extra_info, ExtraInfo, LtsInfo, NodeVersion,
};
use nvm_core::cleanup::{nvmrc_version, plan_cleanup};
use nvm_core::detection::{is_nvm_managed, DetectionSource};
use nvm_core::i18n::Locale;
use nvm_core::shasums::{find_checksum, first_two_words};

fn record(version: &str, lts: LtsInfo) -> NodeVersion {
    NodeVersion {
        version: version.to_string(),
        lts,
        files: vec![],
        date: "".to_string(),
        npm: None,
        v8: None,
        uv: None,
        zlib: None,
        openssl: None,
        modules: None,
        security: false,
    }
}

#[test]
fn cleanup_keeps_active_and_lts() {
    let installed = vec![
        "v21.0.0".to_string(),
        "v20.10.0".to_string(),
        "v19.0.0".to_string(),
        "v17.0.0".to_string(),
    ];
    let catalog = vec![
        record("v21.0.0", LtsInfo::Bool(false)),
        record("v20.10.0", LtsInfo::Name("Iron".to_string())),
        record("v19.0.0", LtsInfo::Bool(false)),
    ];
    let plan = plan_cleanup(&installed, Some("v19.0.0"), &catalog);
    assert_eq!(plan.keep, vec!["v20.10.0", "v19.0.0"]);
    assert_eq!(plan.remove, vec!["v21.0.0", "v17.0.0"]);
    let plan = plan_cleanup(&installed, None, &[]);
    assert!(plan.keep.is_empty());
    assert_eq!(plan.remove.len(), 4);
}

#[test]
fn nvmrc_first_line_trimmed() {
    assert_eq!(nvmrc_version("  v18.0.0 \nlts\n"), Some("v18.0.0".to_string()));
    assert_eq!(nvmrc_version("lts/iron\r\n"), Some("lts/iron".to_string()));
    assert_eq!(nvmrc_version("\nv18.0.0"), None);
    assert_eq!(nvmrc_version(""), None);
    assert_eq!(nvmrc_version("   "), None);
}

#[test]
fn checksum_list_lookup() {
    let text = "aaa  node-v20.10.0-linux-x64.tar.gz\n\
                bbb  node-v20.10.0-win-x64.zip\r\n\
                ccc node-v20.10.0-win-x64.zip\n";
    assert_eq!(find_checksum(text, "node-v20.10.0-win-x64.zip"), Some("bbb".to_string()));
    assert_eq!(find_checksum(text, "node-v20.10.0-linux-x64.tar.gz"), Some("aaa".to_string()));
    assert_eq!(find_checksum(text, "node-v20.10.0-darwin-x64.tar.gz"), None);
    assert_eq!(find_checksum(text, ""), None);
    assert_eq!(find_checksum("", "x"), None);
}

#[test]
fn words_of_a_line() {
    let (a, b) = first_two_words("  abc \t def ghi");
    assert_eq!((a.as_str(), b.as_str()), ("abc", "def"));
    let (a, b) = first_two_words("one");
    assert_eq!((a.as_str(), b.as_str()), ("one", ""));
    let (a, b) = first_two_words("");
    assert_eq!((a.as_str(), b.as_str()), ("", ""));
}

#[test]
fn locale_names() {
    assert_eq!(Locale::from_str("EN"), Some(Locale::En));
    assert_eq!(Locale::from_str("Spanish"), Some(Locale::Es));
    assert_eq!(Locale::from_str("Español"), Some(Locale::Es));
    assert_eq!(Locale::from_str("fr"), None);
    assert_eq!(Locale::Es.as_str(), "es");
    assert_eq!(Locale::En.file_name(), "locales/en.yaml");
}

#[test]
fn test_is_nvm_managed() {
    assert!(is_nvm_managed("/home/user/.nvm/versions/node/v20.0.0/bin/node"));
    assert!(!is_nvm_managed("/usr/local/bin/node"));
    assert!(is_nvm_managed("C:\\Users\\me\\NVM\\node.exe"));
    assert_eq!(DetectionSource::PathEnvironment.label(), "PATH");
}

#[test]
fn pointer_removal_by_shape() {
    assert_eq!(removal_for_pointer(PointerKind::Absent, Platform::Posix), Removal::Nothing);
    assert_eq!(removal_for_pointer(PointerKind::Link, Platform::Posix), Removal::RemoveLink);
    assert_eq!(removal_for_pointer(PointerKind::Link, Platform::Windows), Removal::RemoveJunction);
    assert_eq!(removal_for_pointer(PointerKind::Directory, Platform::Posix), Removal::RemoveTree);
}

#[test]
fn installed_line_information() {
    let mut sec = record("v19.0.0", LtsInfo::Bool(false));
    sec.security = true;
    let catalog = vec![record("v20.10.0", LtsInfo::Name("Iron".to_string())), sec, record("v18.0.0", LtsInfo::Bool(false))];
    assert_eq!(installed_extra_info("v20.10.0", &catalog), ExtraInfo::Lts("Iron".to_string()));
    assert_eq!(installed_extra_info("v19.0.0", &catalog), ExtraInfo::Security);
    assert_eq!(installed_extra_info("v18.0.0", &catalog), ExtraInfo::Plain);
    assert_eq!(installed_extra_info("v1.0.0", &catalog), ExtraInfo::Plain);
    assert_eq!(find_record(&catalog, "v18.0.0"), Some(2));
    assert_eq!(find_record(&catalog, "v17.0.0"), None);
    assert!(alias_target_known("v17.0.0", true, &catalog));
    assert!(alias_target_known("v18.0.0", false, &catalog));
    assert!(!alias_target_known("v17.0.0", false, &catalog));
}
