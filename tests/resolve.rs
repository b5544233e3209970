use nvm_core::aliases::Aliases;
use nvm_core::catalog::{LtsInfo, NodeVersion};
use nvm_core::resolver::{resolve_lowered, resolve_version, ResolveError};

fn record(version: &str, lts: LtsInfo) -> NodeVersion {
    NodeVersion {
        version: version.to_string(),
        lts,
        files: vec![],
        date: "".to_string(),
        npm: None,
        v8: None,
        uv: None,
        zlib: None,
        openssl: None,
        modules: None,
        security: false,
    }
}

fn create_test_versions() -> Vec<NodeVersion> {
    vec![
        record("v20.10.0", LtsInfo::Name("Iron".to_string())),
        record("v18.19.0", LtsInfo::Name("Hydrogen".to_string())),
        record("v19.0.0", LtsInfo::Bool(false)),
    ]
}

#[test]
fn test_resolve_latest() {
    let versions = create_test_versions();
    let result = resolve_version("latest", &versions, &Aliases::new()).unwrap();
    assert_eq!(result, "v20.10.0");
}

#[test]
fn test_resolve_lts() {
    let versions = create_test_versions();
    let result = resolve_version("lts", &versions, &Aliases::new()).unwrap();
    assert_eq!(result, "v20.10.0");
}

#[test]
fn test_resolve_lts_name() {
    let versions = create_test_versions();
    let result = resolve_version("lts/hydrogen", &versions, &Aliases::new()).unwrap();
    assert_eq!(result, "v18.19.0");
}

#[test]
fn resolution_is_deterministic() {
    let versions = create_test_versions();
    let mut aliases = Aliases::new();
    aliases.set("work".to_string(), "lts/iron".to_string());
    for token in ["work", "latest", "nope", "18.0.0"] {
        let a = resolve_version(token, &versions, &aliases);
        let b = resolve_version(token, &versions, &aliases);
        assert_eq!(a, b);
    }
}

#[test]
fn literal_versions_short_circuit() {
    let empty: Vec<NodeVersion> = vec![];
    let aliases = Aliases::new();
    assert_eq!(resolve_version("v18.19.0", &empty, &aliases), Ok("v18.19.0".to_string()));
    assert_eq!(resolve_version("18.19.0", &empty, &aliases), Ok("v18.19.0".to_string()));
    let versions = create_test_versions();
    assert_eq!(resolve_version("18.19.0", &versions, &aliases), Ok("v18.19.0".to_string()));
}

#[test]
fn alias_precedence_and_multi_hop() {
    let versions = create_test_versions();
    let mut aliases = Aliases::new();
    aliases.set("stable".to_string(), "v22.0.0".to_string());
    assert_eq!(resolve_version("stable", &versions, &aliases), Ok("v22.0.0".to_string()));
    aliases.set("x".to_string(), "y".to_string());
    aliases.set("y".to_string(), "v1.0.0".to_string());
    assert_eq!(resolve_version("x", &versions, &aliases), Ok("v1.0.0".to_string()));
    aliases.set("lts".to_string(), "v16.0.0".to_string());
    assert_eq!(resolve_version("lts", &versions, &aliases), Ok("v16.0.0".to_string()));
    aliases.set("mine".to_string(), "lts/iron".to_string());
    assert_eq!(resolve_version("mine", &versions, &aliases), Ok("v20.10.0".to_string()));
}

#[test]
fn alias_cycle_is_detected() {
    let versions = create_test_versions();
    let mut aliases = Aliases::new();
    aliases.set("a".to_string(), "b".to_string());
    aliases.set("b".to_string(), "a".to_string());
    assert_eq!(
        resolve_version("a", &versions, &aliases),
        Err(ResolveError::AliasCycle("a".to_string()))
    );
}

#[test]
fn self_alias_falls_through() {
    let versions = create_test_versions();
    let mut aliases = Aliases::new();
    aliases.set("iron".to_string(), "iron".to_string());
    assert_eq!(resolve_version("iron", &versions, &aliases), Ok("v20.10.0".to_string()));
}

#[test]
fn lts_keyword_examples() {
    let versions = vec![
        record("v20.10.0", LtsInfo::Name("Iron".to_string())),
        record("v19.0.0", LtsInfo::Bool(false)),
    ];
    let aliases = Aliases::new();
    assert_eq!(resolve_version("lts", &versions, &aliases), Ok("v20.10.0".to_string()));
    assert_eq!(resolve_version("latest", &versions, &aliases), Ok("v20.10.0".to_string()));
    assert_eq!(resolve_version("lts/iron", &versions, &aliases), Ok("v20.10.0".to_string()));
    assert_eq!(
        resolve_version("lts/hydrogen", &versions, &aliases),
        Err(ResolveError::LtsCodenameNotFound("hydrogen".to_string()))
    );
}

#[test]
fn keywords_ignore_case() {
    let versions = create_test_versions();
    let aliases = Aliases::new();
    assert_eq!(resolve_version("LATEST", &versions, &aliases), Ok("v20.10.0".to_string()));
    assert_eq!(resolve_version("LTS/Hydrogen", &versions, &aliases), Ok("v18.19.0".to_string()));
    assert_eq!(resolve_version("IRON", &versions, &aliases), Ok("v20.10.0".to_string()));
}

#[test]
fn resolution_errors() {
    let empty: Vec<NodeVersion> = vec![];
    let aliases = Aliases::new();
    assert_eq!(resolve_version("latest", &empty, &aliases), Err(ResolveError::NoVersionsAvailable));
    let no_lts = vec![record("v19.0.0", LtsInfo::Bool(false))];
    assert_eq!(resolve_version("lts", &no_lts, &aliases), Err(ResolveError::NoLtsFound));
    assert_eq!(
        resolve_version("unknown", &no_lts, &aliases),
        Err(ResolveError::UnknownVersionOrAlias("unknown".to_string()))
    );
    assert_eq!(
        resolve_version("v18", &no_lts, &aliases),
        Err(ResolveError::UnknownVersionOrAlias("v18".to_string()))
    );
}

#[test]
fn lowered_resolution_takes_the_lowercase_form() {
    let versions = create_test_versions();
    assert_eq!(resolve_lowered("Latest", "latest", &versions), Ok("v20.10.0".to_string()));
    assert_eq!(resolve_lowered("LTS", "lts", &versions), Ok("v20.10.0".to_string()));
    assert_eq!(resolve_lowered("x", "hydrogen", &versions), Ok("v18.19.0".to_string()));
    assert_eq!(
        resolve_lowered("Zeta", "zeta", &versions),
        Err(ResolveError::UnknownVersionOrAlias("Zeta".to_string()))
    );
}

#[test]
fn error_messages_name_the_token() {
    assert_eq!(
        ResolveError::UnknownVersionOrAlias("abc".to_string()).message(),
        "Unknown version or alias: abc"
    );
    assert_eq!(
        ResolveError::LtsCodenameNotFound("argon".to_string()).message(),
        "LTS version 'argon' not found"
    );
}
