//! The active-version pointer: a link (or, where links cannot be made, a
//! copied directory) at a fixed location, plus a marker file inside it that
//! names the version. The filesystem work is done by the caller; this module
//! decides what to do and how to read what is there.
use vstd::prelude::*;

use crate::text::{is_space, str_eq, trim_text, trimmed, lemma_trimmed_unchanged};

verus! {

/// The two ways of making the pointer: a symbolic link to the version's
/// `bin` directory, or a junction (with a copy as fallback) to the version's
/// root directory.
#[derive(Clone, Copy, Debug, PartialEq, Eq, Structural)]
pub enum Platform {
    Posix,
    Windows,
}

/// What stands at the pointer location, by its link metadata.
#[derive(Clone, Copy, Debug, PartialEq, Eq, Structural)]
pub enum PointerKind {
    /// Nothing, not even a dangling link.
    Absent,
    /// A symbolic link or a junction.
    Link,
    /// A plain directory: the copy fallback.
    Directory,
}

/// What a reader found at the pointer location.
#[derive(Debug)]
pub struct PointerObservation {
    pub kind: PointerKind,
    /// Whether the location resolves to something that exists (a dangling
    /// link does not).
    pub target_exists: bool,
    /// The marker file's contents, when it could be read.
    pub marker: Option<String>,
    /// The path components of the link's target, when it is a link that
    /// could be read.
    pub link_target: Vec<String>,
}

/// What the pointer holds, over plain values.
pub struct PointerView {
    pub kind: PointerKind,
    pub target_exists: bool,
    pub marker: Option<Seq<char>>,
    pub link_target: Seq<Seq<char>>,
}

pub open spec fn opt_view(o: Option<String>) -> Option<Seq<char>> {
    match o {
        Some(s) => Some(s@),
        None => None,
    }
}

pub open spec fn views(v: Seq<String>) -> Seq<Seq<char>> {
    v.map_values(|s: String| s@)
}

impl View for PointerObservation {
    type V = PointerView;

    open spec fn view(&self) -> PointerView {
        PointerView {
            kind: self.kind,
            target_exists: self.target_exists,
            marker: opt_view(self.marker),
            link_target: views(self.link_target@),
        }
    }
}

/// Stands for the active version of a copied directory without a marker:
/// present, but not known by name.
pub const ACTIVE_UNKNOWN: &'static str = "(active)";

/// The version that a link target names: its last component, or the one
/// before when the link points at a version's `bin` directory.
pub open spec fn version_of_target(t: Seq<Seq<char>>) -> Seq<char> {
    if t.len() >= 2 && t.last() == "bin"@ {
        t[t.len() - 2]
    } else {
        t.last()
    }
}

/// What reading the pointer gives: nothing when it is absent or dangling;
/// else the marker's trimmed contents; else the version that the link
/// target names; else, for a copied directory, the unknown-version stand-in.
pub open spec fn read_active_spec(p: PointerView) -> Option<Seq<char>> {
    if p.kind == PointerKind::Absent || !p.target_exists {
        None
    } else if p.marker is Some && trimmed(p.marker->Some_0).len() > 0 {
        Some(trimmed(p.marker->Some_0))
    } else if p.link_target.len() > 0 {
        Some(version_of_target(p.link_target))
    } else if p.kind == PointerKind::Directory {
        Some(ACTIVE_UNKNOWN@)
    } else {
        None
    }
}

/// Reads the active version from what was observed at the pointer.
pub fn read_active(p: &PointerObservation) -> (r: Option<String>)
    ensures
        opt_view(r) == read_active_spec(p@),
{
    if p.kind == PointerKind::Absent || !p.target_exists {
        return None;
    }
    match &p.marker {
        Some(c) => {
            let t = trim_text(c.as_str());
            if t.unicode_len() > 0 {
                return Some(t);
            }
        },
        None => {},
    }
    let n = p.link_target.len();
    if n > 0 {
        proof {
            reveal_strlit("bin");
            assert(views(p.link_target@).last() == p.link_target@[n - 1]@);
        }
        if n >= 2 && str_eq(p.link_target[n - 1].as_str(), "bin") {
            proof {
                assert(views(p.link_target@)[n - 2] == p.link_target@[n - 2]@);
            }
            return Some(p.link_target[n - 2].clone());
        }
        return Some(p.link_target[n - 1].clone());
    }
    if p.kind == PointerKind::Directory {
        return Some(String::from_str(ACTIVE_UNKNOWN));
    }
    None
}

/// Whether the pointer exists (as a link or a directory) and resolves to
/// something that exists.
pub open spec fn pointer_valid(kind: PointerKind, target_exists: bool) -> bool {
    kind != PointerKind::Absent && target_exists
}

/// Whether the pointer is usable: present and not dangling.
pub fn is_valid_symlink(kind: PointerKind, target_exists: bool) -> (r: bool)
    ensures
        r == pointer_valid(kind, target_exists),
{
    kind != PointerKind::Absent && target_exists
}

/// How to take away what stands at the pointer location.
#[derive(Clone, Copy, Debug, PartialEq, Eq, Structural)]
pub enum Removal {
    Nothing,
    /// Remove the link itself (a file-like removal).
    RemoveLink,
    /// Remove the junction (a directory-like removal that keeps the target).
    RemoveJunction,
    /// Remove the copied directory and everything in it.
    RemoveTree,
}

/// How to make the new pointer.
#[derive(Clone, Copy, Debug, PartialEq, Eq, Structural)]
pub enum Mechanism {
    Symlink,
    Junction,
}

/// The steps of a switch: remove what is there, link to the target (or copy
/// it where the link fails and `copy_fallback` is set), then write `marker`
/// into the marker file inside the new pointer.
#[derive(Debug)]
pub struct SwitchPlan {
    pub removal: Removal,
    pub target: Vec<String>,
    pub mechanism: Mechanism,
    pub copy_fallback: bool,
    pub marker: String,
}

pub open spec fn removal_for(existing: PointerKind, platform: Platform) -> Removal {
    match existing {
        PointerKind::Absent => Removal::Nothing,
        PointerKind::Link => if platform == Platform::Posix {
            Removal::RemoveLink
        } else {
            Removal::RemoveJunction
        },
        PointerKind::Directory => Removal::RemoveTree,
    }
}

/// How to take away what stands at the pointer location on the platform.
pub fn removal_for_pointer(existing: PointerKind, platform: Platform) -> (r: Removal)
    ensures
        r == removal_for(existing, platform),
{
    match existing {
        PointerKind::Absent => Removal::Nothing,
        PointerKind::Link => if platform == Platform::Posix {
            Removal::RemoveLink
        } else {
            Removal::RemoveJunction
        },
        PointerKind::Directory => Removal::RemoveTree,
    }
}

/// The path components that the pointer links to: the version's `bin`
/// directory on POSIX, the version's root elsewhere.
pub open spec fn target_for(root: Seq<char>, version: Seq<char>, platform: Platform) -> Seq<
    Seq<char>,
> {
    if platform == Platform::Posix {
        seq![root, version, "bin"@]
    } else {
        seq![root, version]
    }
}

/// Plans the switch of the pointer to `version`, installed under
/// `versions_root`, given what stands at the pointer location now.
pub fn plan_switch(version: &str, versions_root: &str, platform: Platform, existing: PointerKind) -> (r:
    SwitchPlan)
    ensures
        r.removal == removal_for(existing, platform),
        views(r.target@) == target_for(versions_root@, version@, platform),
        r.mechanism == (if platform == Platform::Posix {
            Mechanism::Symlink
        } else {
            Mechanism::Junction
        }),
        r.copy_fallback == (platform == Platform::Windows),
        r.marker@ == version@,
{
    let removal = removal_for_pointer(existing, platform);
    let mut target: Vec<String> = Vec::new();
    target.push(String::from_str(versions_root));
    target.push(String::from_str(version));
    proof {
        reveal_strlit("bin");
    }
    if platform == Platform::Posix {
        target.push(String::from_str("bin"));
    }
    let ghost expect = target_for(versions_root@, version@, platform);
    assert(views(target@) =~= expect);
    SwitchPlan {
        removal,
        target,
        mechanism: if platform == Platform::Posix {
            Mechanism::Symlink
        } else {
            Mechanism::Junction
        },
        copy_fallback: platform == Platform::Windows,
        marker: String::from_str(version),
    }
}

/// How the new pointer was made.
#[derive(Clone, Copy, Debug, PartialEq, Eq, Structural)]
pub enum LinkOutcome {
    Linked,
    Copied,
}

/// What the pointer holds after a plan ran to its end.
pub open spec fn after_switch(plan: SwitchPlan, made: LinkOutcome) -> PointerView {
    PointerView {
        kind: if made == LinkOutcome::Linked {
            PointerKind::Link
        } else {
            PointerKind::Directory
        },
        target_exists: true,
        marker: Some(plan.marker@),
        link_target: if made == LinkOutcome::Linked {
            views(plan.target@)
        } else {
            Seq::empty()
        },
    }
}

/// A version name as it is written: not empty, no white space at its ends.
pub open spec fn plain_name(v: Seq<char>) -> bool {
    v.len() > 0 && !is_space(v[0]) && !is_space(v.last())
}

/// After switching to `first`, reading the pointer gives `first`, whatever
/// stood there before and whichever way the pointer was made; switching
/// again to `second` (planned from what the first switch left) replaces it:
/// reading then gives `second`, with nothing of the first left to read.
pub proof fn lemma_switch_round_trip(
    first: Seq<char>,
    second: Seq<char>,
    root: Seq<char>,
    platform: Platform,
    plan1: SwitchPlan,
    made1: LinkOutcome,
    plan2: SwitchPlan,
    made2: LinkOutcome,
)
    requires
        plain_name(first),
        plain_name(second),
        plan1.marker@ == first,
        plan2.marker@ == second,
        plan2.removal == removal_for(after_switch(plan1, made1).kind, platform),
        views(plan2.target@) == target_for(root, second, platform),
    ensures
        read_active_spec(after_switch(plan1, made1)) == Some(first),
        read_active_spec(after_switch(plan2, made2)) == Some(second),
        plan2.removal != Removal::Nothing,
{
    lemma_trimmed_unchanged(first);
    lemma_trimmed_unchanged(second);
}

/// What `uninstall` does with the version it resolved.
#[derive(Clone, Copy, Debug, PartialEq, Eq, Structural)]
pub enum UninstallPlan {
    /// The version is not installed: nothing to do.
    NotInstalled,
    /// The version is the active one and `force` was not given: refuse and
    /// leave everything as it is.
    RefuseActive,
    /// Remove the version's directory, and first the pointer when it points
    /// at that version.
    Remove { clear_pointer: bool },
}

pub open spec fn uninstall_plan_spec(
    version: Seq<char>,
    installed: bool,
    active: Option<Seq<char>>,
    force: bool,
) -> UninstallPlan {
    if !installed {
        UninstallPlan::NotInstalled
    } else if active == Some(version) && !force {
        UninstallPlan::RefuseActive
    } else {
        UninstallPlan::Remove { clear_pointer: active == Some(version) }
    }
}

/// Decides an uninstall: refuse the active version unless forced; when
/// forced, clear the pointer before removing the directory.
pub fn plan_uninstall(version: &str, installed: bool, active: Option<&str>, force: bool) -> (r:
    UninstallPlan)
    ensures
        r == uninstall_plan_spec(
            version@,
            installed,
            match active {
                Some(a) => Some(a@),
                None => None,
            },
            force,
        ),
{
    if !installed {
        return UninstallPlan::NotInstalled;
    }
    let is_active = match active {
        Some(a) => str_eq(a, version),
        None => false,
    };
    if is_active && !force {
        UninstallPlan::RefuseActive
    } else {
        UninstallPlan::Remove { clear_pointer: is_active }
    }
}

/// The pointer's reading and the installed set, before or after an
/// uninstall.
pub struct InstallState {
    pub active: Option<Seq<char>>,
    pub installed: Set<Seq<char>>,
}

/// The state after carrying out an uninstall plan for `version`.
pub open spec fn after_uninstall(s: InstallState, version: Seq<char>, plan: UninstallPlan) -> InstallState {
    match plan {
        UninstallPlan::Remove { clear_pointer } => InstallState {
            active: if clear_pointer {
                None
            } else {
                s.active
            },
            installed: s.installed.remove(version),
        },
        _ => s,
    }
}

/// Uninstalling the active version without `force` is refused and changes
/// nothing; with `force` the pointer is cleared and the version is gone.
pub proof fn lemma_uninstall_active_guard(s: InstallState, version: Seq<char>, force: bool)
    requires
        s.active == Some(version),
        s.installed.contains(version),
    ensures
        !force ==> uninstall_plan_spec(version, true, s.active, force) == UninstallPlan::RefuseActive
            && after_uninstall(s, version, uninstall_plan_spec(version, true, s.active, force)) == s,
        force ==> after_uninstall(
            s,
            version,
            uninstall_plan_spec(version, true, s.active, force),
        ).active is None && !after_uninstall(
            s,
            version,
            uninstall_plan_spec(version, true, s.active, force),
        ).installed.contains(version),
{
}

} // verus!
