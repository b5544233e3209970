use nvm_core::catalog::{LtsInfo, NodeVersion};
use nvm_core::config::{Config, ConfigError};
use nvm_core::download::{
    calculate_checksum, checksums_match, get_archive_name, get_checksum_url, get_download_url,
    verify_checksum,
};

fn config(os: &str) -> Config {
    Config::from_environment(
        Some("/tmp/nvm-home".to_string()),
        None,
        None,
        "x86_64",
        os.to_string(),
    )
    .unwrap()
}

fn iron() -> NodeVersion {
    NodeVersion {
        version: "v20.10.0".to_string(),
        lts: LtsInfo::Name("Iron".to_string()),
        files: vec![],
        date: "".to_string(),
        npm: None,
        v8: None,
        uv: None,
        zlib: None,
        openssl: None,
        modules: None,
        security: false,
    }
}

#[test]
fn test_get_download_url_windows() {
    let version = iron();
    let url = get_download_url(&version, &config("windows"));
    assert!(url.contains("win-x64.zip") || url.contains("win-x86.zip"));
    let url = get_download_url(&version, &config("linux"));
    assert!(url.contains(".tar.gz"));
}

#[test]
fn test_get_checksum_url() {
    let url = get_checksum_url("v20.10.0", &config("linux"));
    assert!(url.contains("v20.10.0"));
    assert!(url.ends_with("SHASUMS256.txt"));
}

#[test]
fn download_urls_exactly() {
    let v = iron();
    assert_eq!(
        get_download_url(&v, &config("linux")),
        "https://nodejs.org/dist/v20.10.0/node-v20.10.0-linux-x64.tar.gz"
    );
    assert_eq!(
        get_download_url(&v, &config("macos")),
        "https://nodejs.org/dist/v20.10.0/node-v20.10.0-darwin-x64.tar.gz"
    );
    assert_eq!(get_archive_name("v20.10.0", &config("windows")), "node-v20.10.0-win-x64.zip");
    assert_eq!(
        get_checksum_url("v20.10.0", &config("linux")),
        "https://nodejs.org/dist/v20.10.0/SHASUMS256.txt"
    );
}

#[test]
fn configuration_from_environment() {
    let c = Config::from_environment(None, Some("/home/u".to_string()), Some("http://m".to_string()), "aarch64", "linux".to_string()).unwrap();
    assert_eq!(c.nvm_dir, "/home/u/.nvm");
    assert_eq!(c.node_mirror, "http://m");
    assert_eq!(c.arch, "arm64");
    assert_eq!(c.versions_dir(), "/home/u/.nvm/versions");
    assert_eq!(c.current_dir(), "/home/u/.nvm/current/bin");
    assert_eq!(c.aliases_file(), "/home/u/.nvm/aliases.json");
    assert_eq!(c.installed_cache_file(), "/home/u/.nvm/.installed_cache.json");
    assert_eq!(c.version_dir("v18.0.0"), "/home/u/.nvm/versions/v18.0.0");
    assert_eq!(c.cache_duration_minutes, 15);
    assert_eq!(c.installed_cache_duration_minutes, 5);
    assert_eq!(
        Config::from_environment(None, None, None, "x86", "linux".to_string()).err(),
        Some(ConfigError::NoHomeDirectory)
    );
    assert_eq!(Config::detect_arch("riscv64"), "unknown");
    assert_eq!(Config::detect_arch("x86"), "x86");
}

#[test]
fn sha256_of_known_input() {
    assert_eq!(
        calculate_checksum(b"abc"),
        "ba7816bf8f01cfea414140de5dae2223b00361a396177a9cb410ff61f20015ad"
    );
}

#[test]
fn checksum_verification_ignores_case() {
    let expected = "BA7816BF8F01CFEA414140DE5DAE2223B00361A396177A9CB410FF61F20015AD";
    assert!(verify_checksum(b"abc", expected).is_ok());
    let err = verify_checksum(b"abd", expected).unwrap_err();
    assert_eq!(err.expected, expected);
    assert_ne!(err.actual, expected.to_lowercase());
    assert!(checksums_match("abcdef", "ABCDEF"));
    assert!(!checksums_match("abcdef", "abcdee"));
}

#[test]
fn windows_paths_use_backslashes() {
    let c = Config::from_environment(None, Some("C:\\Users\\me".to_string()), None, "x86_64", "windows".to_string()).unwrap();
    assert_eq!(c.nvm_dir, "C:\\Users\\me\\.nvm");
    assert_eq!(c.versions_dir(), "C:\\Users\\me\\.nvm\\versions");
    assert_eq!(nvm_core::aliases::Aliases::get_aliases_file_path(&c), "C:\\Users\\me\\.nvm\\aliases.json");
    let d = Config::from_environment(Some("/opt/nvm/".to_string()), None, None, "x86_64", "linux".to_string()).unwrap();
    assert_eq!(d.temp_dir(), "/opt/nvm/temp");
}
