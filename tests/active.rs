use nvm_core::active::{
    is_valid_symlink, plan_switch, plan_uninstall, read_active, LinkOutcome, Mechanism, Platform,
    PointerKind, PointerObservation, Removal, UninstallPlan, ACTIVE_UNKNOWN,
};

/// What a reader would find after the plan ran to its end.
fn observe_after(plan: &nvm_core::active::SwitchPlan, made: LinkOutcome) -> PointerObservation {
    PointerObservation {
        kind: if made == LinkOutcome::Linked { PointerKind::Link } else { PointerKind::Directory },
        target_exists: true,
        marker: Some(plan.marker.clone()),
        link_target: if made == LinkOutcome::Linked { plan.target.clone() } else { vec![] },
    }
}

#[test]
fn switch_round_trip_and_replacement() {
    let first = plan_switch("v18.0.0", "/home/u/.nvm/versions", Platform::Posix, PointerKind::Absent);
    assert_eq!(first.removal, Removal::Nothing);
    assert_eq!(first.mechanism, Mechanism::Symlink);
    assert_eq!(first.target, vec!["/home/u/.nvm/versions", "v18.0.0", "bin"]);
    assert_eq!(read_active(&observe_after(&first, LinkOutcome::Linked)), Some("v18.0.0".to_string()));

    let second = plan_switch("v20.0.0", "/home/u/.nvm/versions", Platform::Posix, PointerKind::Link);
    assert_eq!(second.removal, Removal::RemoveLink);
    assert_eq!(read_active(&observe_after(&second, LinkOutcome::Linked)), Some("v20.0.0".to_string()));
}

#[test]
fn windows_switch_uses_junction_with_copy_fallback() {
    let plan = plan_switch("v20.0.0", "C:\\nvm\\versions", Platform::Windows, PointerKind::Directory);
    assert_eq!(plan.removal, Removal::RemoveTree);
    assert_eq!(plan.mechanism, Mechanism::Junction);
    assert!(plan.copy_fallback);
    assert_eq!(plan.target, vec!["C:\\nvm\\versions", "v20.0.0"]);
    assert_eq!(read_active(&observe_after(&plan, LinkOutcome::Copied)), Some("v20.0.0".to_string()));
    let again = plan_switch("v20.0.0", "C:\\nvm\\versions", Platform::Windows, PointerKind::Link);
    assert_eq!(again.removal, Removal::RemoveJunction);
}

#[test]
fn read_active_prefers_trimmed_marker() {
    let p = PointerObservation {
        kind: PointerKind::Link,
        target_exists: true,
        marker: Some("  v18.0.0\n".to_string()),
        link_target: vec!["x".to_string(), "v16.0.0".to_string(), "bin".to_string()],
    };
    assert_eq!(read_active(&p), Some("v18.0.0".to_string()));
}

#[test]
fn read_active_falls_back_to_link_target() {
    let p = PointerObservation {
        kind: PointerKind::Link,
        target_exists: true,
        marker: Some(" \n".to_string()),
        link_target: vec!["/".to_string(), "versions".to_string(), "v16.0.0".to_string(), "bin".to_string()],
    };
    assert_eq!(read_active(&p), Some("v16.0.0".to_string()));
    let q = PointerObservation {
        kind: PointerKind::Link,
        target_exists: true,
        marker: None,
        link_target: vec!["versions".to_string(), "v16.0.0".to_string()],
    };
    assert_eq!(read_active(&q), Some("v16.0.0".to_string()));
}

#[test]
fn read_active_of_missing_or_broken_pointer() {
    let absent = PointerObservation {
        kind: PointerKind::Absent,
        target_exists: false,
        marker: None,
        link_target: vec![],
    };
    assert_eq!(read_active(&absent), None);
    let broken = PointerObservation {
        kind: PointerKind::Link,
        target_exists: false,
        marker: None,
        link_target: vec!["v1.0.0".to_string()],
    };
    assert_eq!(read_active(&broken), None);
    assert!(!is_valid_symlink(PointerKind::Link, false));
    assert!(is_valid_symlink(PointerKind::Link, true));
    assert!(is_valid_symlink(PointerKind::Directory, true));
    assert!(!is_valid_symlink(PointerKind::Absent, true));
}

#[test]
fn read_active_of_copy_without_marker() {
    let copied = PointerObservation {
        kind: PointerKind::Directory,
        target_exists: true,
        marker: None,
        link_target: vec![],
    };
    assert_eq!(read_active(&copied), Some(ACTIVE_UNKNOWN.to_string()));
}

#[test]
fn uninstall_active_guard() {
    assert_eq!(plan_uninstall("v18.0.0", true, Some("v18.0.0"), false), UninstallPlan::RefuseActive);
    assert_eq!(
        plan_uninstall("v18.0.0", true, Some("v18.0.0"), true),
        UninstallPlan::Remove { clear_pointer: true }
    );
    assert_eq!(
        plan_uninstall("v18.0.0", true, Some("v20.0.0"), false),
        UninstallPlan::Remove { clear_pointer: false }
    );
    assert_eq!(plan_uninstall("v18.0.0", true, None, false), UninstallPlan::Remove { clear_pointer: false });
    assert_eq!(plan_uninstall("v18.0.0", false, Some("v18.0.0"), true), UninstallPlan::NotInstalled);
}
