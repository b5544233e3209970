//! Resolution of a user token (version, alias, `latest`, `lts`,
//! `lts/<codename>` or a bare codename) to one normalised version.
use vstd::prelude::*;

use crate::aliases::{alias_step, Aliases};
use crate::catalog::{lts_codename, lts_flag, NodeVersion};
use crate::semver::{is_full_version, is_full_version_str, normalize_version, normalized};
use crate::text::{lower_of, lowercase, starts_with_str, str_eq, str_starts_with};

verus! {

/// Why a token could not be resolved.
#[derive(Debug, Clone, PartialEq, Eq)]
pub enum ResolveError {
    /// The alias chain came back to this name.
    AliasCycle(String),
    /// `latest` was asked of an empty catalog.
    NoVersionsAvailable,
    /// `lts` was asked of a catalog without LTS releases.
    NoLtsFound,
    /// No LTS line has this (lowercased) codename.
    LtsCodenameNotFound(String),
    /// The token is neither a version, an alias, a keyword nor a codename.
    UnknownVersionOrAlias(String),
}

/// The outcome of resolution, over plain values.
pub enum Resolution {
    Found(Seq<char>),
    AliasCycle(Seq<char>),
    NoVersionsAvailable,
    NoLtsFound,
    LtsCodenameNotFound(Seq<char>),
    UnknownVersionOrAlias(Seq<char>),
}

pub open spec fn outcome(r: Result<String, ResolveError>) -> Resolution {
    match r {
        Ok(v) => Resolution::Found(v@),
        Err(ResolveError::AliasCycle(n)) => Resolution::AliasCycle(n@),
        Err(ResolveError::NoVersionsAvailable) => Resolution::NoVersionsAvailable,
        Err(ResolveError::NoLtsFound) => Resolution::NoLtsFound,
        Err(ResolveError::LtsCodenameNotFound(c)) => Resolution::LtsCodenameNotFound(c@),
        Err(ResolveError::UnknownVersionOrAlias(t)) => Resolution::UnknownVersionOrAlias(t@),
    }
}

/// Index of the first record that is LTS.
pub open spec fn is_first_lts(cat: Seq<NodeVersion>, i: int) -> bool {
    &&& 0 <= i < cat.len()
    &&& lts_flag(cat[i].lts)
    &&& forall|j: int| 0 <= j < i ==> !lts_flag(#[trigger] cat[j].lts)
}

/// The record's LTS codename, lowercased, is `code`.
pub open spec fn codename_is(v: NodeVersion, code: Seq<char>) -> bool {
    match lts_codename(v.lts) {
        Some(n) => lower_of(n) == code,
        None => false,
    }
}

/// Index of the first record whose lowercased codename is `code`.
pub open spec fn is_first_codename(cat: Seq<NodeVersion>, code: Seq<char>, i: int) -> bool {
    &&& 0 <= i < cat.len()
    &&& codename_is(cat[i], code)
    &&& forall|j: int| 0 <= j < i ==> !codename_is(#[trigger] cat[j], code)
}

pub open spec fn lts_pick(cat: Seq<NodeVersion>) -> Resolution {
    if exists|i: int| is_first_lts(cat, i) {
        Resolution::Found(cat[choose|i: int| is_first_lts(cat, i)].version@)
    } else {
        Resolution::NoLtsFound
    }
}

pub open spec fn codename_pick(cat: Seq<NodeVersion>, code: Seq<char>) -> Option<Seq<char>> {
    if exists|i: int| is_first_codename(cat, code, i) {
        Some(cat[choose|i: int| is_first_codename(cat, code, i)].version@)
    } else {
        None
    }
}

/// Resolution of a token that is not (or no longer) an alias, given the
/// token's lowercase form: a full version, a keyword, or an LTS codename.
pub open spec fn resolve_keyword(cat: Seq<NodeVersion>, t: Seq<char>, lower: Seq<char>) -> Resolution {
    if is_full_version(t) {
        Resolution::Found(normalized(t))
    } else if lower == "latest"@ {
        if cat.len() > 0 {
            Resolution::Found(cat[0].version@)
        } else {
            Resolution::NoVersionsAvailable
        }
    } else if lower == "lts"@ {
        lts_pick(cat)
    } else if starts_with_str(lower, "lts/"@) {
        match codename_pick(cat, lower.skip(4)) {
            Some(v) => Resolution::Found(v),
            None => Resolution::LtsCodenameNotFound(lower.skip(4)),
        }
    } else {
        match codename_pick(cat, lower) {
            Some(v) => Resolution::Found(v),
            None => Resolution::UnknownVersionOrAlias(t),
        }
    }
}

/// Full resolution: follow aliases while they lead somewhere else, failing
/// when a name comes back; then resolve what is left against the catalog.
pub open spec fn resolve_from(
    m: Map<Seq<char>, Seq<char>>,
    cat: Seq<NodeVersion>,
    t: Seq<char>,
    visited: Set<Seq<char>>,
) -> Resolution
    decreases m.dom().len() - visited.len(),
    when m.dom().finite() && visited.subset_of(m.dom())
{
    match alias_step(m, t) {
        Some(next) => {
            if next != t {
                if visited.contains(t) {
                    Resolution::AliasCycle(t)
                } else {
                    proof {
                        vstd::set_lib::lemma_len_subset(visited.insert(t), m.dom());
                    }
                    resolve_from(m, cat, next, visited.insert(t))
                }
            } else {
                resolve_keyword(cat, t, lower_of(t))
            }
        },
        None => resolve_keyword(cat, t, lower_of(t)),
    }
}

/// What resolving `t` against the store and the catalog gives.
pub open spec fn resolution(m: Map<Seq<char>, Seq<char>>, cat: Seq<NodeVersion>, t: Seq<char>) -> Resolution {
    resolve_from(m, cat, t, Set::empty())
}

fn first_lts(cat: &[NodeVersion]) -> (r: Option<usize>)
    ensures
        match r {
            Some(i) => is_first_lts(cat@, i as int),
            None => forall|j: int| 0 <= j < cat@.len() ==> !lts_flag(#[trigger] cat@[j].lts),
        },
{
    let mut i: usize = 0;
    while i < cat.len()
        invariant
            i <= cat@.len(),
            forall|j: int| 0 <= j < i ==> !lts_flag(#[trigger] cat@[j].lts),
        decreases cat@.len() - i,
    {
        if cat[i].lts.is_lts() {
            return Some(i);
        }
        i = i + 1;
    }
    None
}

fn first_codename(cat: &[NodeVersion], code: &str) -> (r: Option<usize>)
    ensures
        match r {
            Some(i) => is_first_codename(cat@, code@, i as int),
            None => forall|j: int| 0 <= j < cat@.len() ==> !codename_is(#[trigger] cat@[j], code@),
        },
{
    let mut i: usize = 0;
    while i < cat.len()
        invariant
            i <= cat@.len(),
            forall|j: int| 0 <= j < i ==> !codename_is(#[trigger] cat@[j], code@),
        decreases cat@.len() - i,
    {
        match cat[i].lts.name() {
            Some(n) => {
                let ln = lowercase(n);
                if str_eq(ln.as_str(), code) {
                    return Some(i);
                }
            },
            None => {},
        }
        i = i + 1;
    }
    None
}

proof fn lemma_first_lts_unique(cat: Seq<NodeVersion>, i: int)
    requires
        is_first_lts(cat, i),
    ensures
        lts_pick(cat) == Resolution::Found(cat[i].version@),
{
    let k = choose|k: int| is_first_lts(cat, k);
    if k < i {
        assert(!lts_flag(cat[k].lts));
    } else if k > i {
        assert(!lts_flag(cat[i].lts));
    }
}

proof fn lemma_first_codename_unique(cat: Seq<NodeVersion>, code: Seq<char>, i: int)
    requires
        is_first_codename(cat, code, i),
    ensures
        codename_pick(cat, code) == Some(cat[i].version@),
{
    let k = choose|k: int| is_first_codename(cat, code, k);
    if k < i {
        assert(!codename_is(cat[k], code));
    } else if k > i {
        assert(!codename_is(cat[i], code));
    }
}

/// Resolves a token that is not an alias, given its lowercase form: a full
/// version is normalised, `latest` is the first record, `lts` the first LTS
/// record, `lts/<codename>` and a bare codename the first record of that
/// LTS line.
pub fn resolve_lowered(token: &str, lowered: &str, available_versions: &[NodeVersion]) -> (r: Result<
    String,
    ResolveError,
>)
    ensures
        outcome(r) == resolve_keyword(available_versions@, token@, lowered@),
{
    let ghost cat = available_versions@;
    proof {
        reveal_strlit("latest");
        reveal_strlit("lts");
        reveal_strlit("lts/");
    }
    if is_full_version_str(token) {
        return Ok(normalize_version(token));
    }
    if str_eq(lowered, "latest") {
        if available_versions.len() > 0 {
            return Ok(available_versions[0].version.clone());
        }
        return Err(ResolveError::NoVersionsAvailable);
    }
    if str_eq(lowered, "lts") {
        return match first_lts(available_versions) {
            Some(i) => {
                proof {
                    lemma_first_lts_unique(cat, i as int);
                }
                Ok(available_versions[i].version.clone())
            },
            None => Err(ResolveError::NoLtsFound),
        };
    }
    let (code, prefixed) = if str_starts_with(lowered, "lts/") {
        (lowered.substring_char(4, lowered.unicode_len()), true)
    } else {
        (lowered, false)
    };
    proof {
        if prefixed {
            assert(code@ =~= lowered@.skip(4));
        }
    }
    match first_codename(available_versions, code) {
        Some(i) => {
            proof {
                lemma_first_codename_unique(cat, code@, i as int);
            }
            Ok(available_versions[i].version.clone())
        },
        None => {
            proof {
                assert(!exists|k: int| is_first_codename(cat, code@, k));
            }
            if prefixed {
                Err(ResolveError::LtsCodenameNotFound(String::from_str(code)))
            } else {
                Err(ResolveError::UnknownVersionOrAlias(String::from_str(token)))
            }
        },
    }
}

/// Resolves a user token to a normalised version: aliases first (a name that
/// comes back is a cycle), then a literal full version, then `latest`, `lts`,
/// `lts/<codename>` and a bare LTS codename, matched without regard to case.
pub fn resolve_version(version: &str, available_versions: &[NodeVersion], aliases: &Aliases) -> (r:
    Result<String, ResolveError>)
    requires
        aliases.wf(),
    ensures
        outcome(r) == resolution(aliases@, available_versions@, version@),
{
    let ghost m = aliases@;
    let ghost cat = available_versions@;
    let mut token = String::from_str(version);
    let mut visited: Vec<String> = Vec::new();
    let ghost mut vs: Set<Seq<char>> = Set::empty();
    proof {
        crate::aliases::lemma_dom_finite(aliases.aliases@);
    }
    loop
        invariant
            aliases.wf(),
            m == aliases@,
            cat == available_versions@,
            m.dom().finite(),
            vs.finite(),
            vs.subset_of(m.dom()),
            vs.len() == visited@.len(),
            forall|s: Seq<char>| vs.contains(s) <==> exists|j: int|
                0 <= j < visited@.len() && (#[trigger] visited@[j])@ == s,
            resolve_from(m, cat, token@, vs) == resolve_from(m, cat, version@, Set::empty()),
        ensures
            resolve_from(m, cat, version@, Set::empty()) == resolve_keyword(
                cat,
                token@,
                lower_of(token@),
            ),
        decreases m.dom().len() - vs.len(),
    {
        match aliases.resolve(token.as_str()) {
            Some(next) => {
                if str_eq(next.as_str(), token.as_str()) {
                    break;
                }
                let mut seen = false;
                let mut j: usize = 0;
                while j < visited.len()
                    invariant
                        j <= visited@.len(),
                        seen == exists|k: int| 0 <= k < j && (#[trigger] visited@[k])@ == token@,
                    decreases visited@.len() - j,
                {
                    if str_eq(visited[j].as_str(), token.as_str()) {
                        seen = true;
                    }
                    j = j + 1;
                }
                if seen {
                    proof {
                        assert(vs.contains(token@));
                        assert(alias_step(m, token@) == Some(next@));
                        assert(next@ != token@);
                        assert(resolve_from(m, cat, token@, vs) == Resolution::AliasCycle(token@));
                    }
                    return Err(ResolveError::AliasCycle(token));
                }
                proof {
                    assert(m.contains_key(token@));
                    vstd::set_lib::lemma_len_subset(vs.insert(token@), m.dom());
                    assert(resolve_from(m, cat, token@, vs) == resolve_from(
                        m,
                        cat,
                        next@,
                        vs.insert(token@),
                    ));
                    vs = vs.insert(token@);
                }
                let ghost prev = visited@;
                visited.push(token);
                proof {
                    assert forall|s: Seq<char>| vs.contains(s) <==> exists|j: int|
                        0 <= j < visited@.len() && (#[trigger] visited@[j])@ == s by {
                        if vs.contains(s) && s != visited@[prev.len() as int]@ {
                            let j = choose|j: int| 0 <= j < prev.len() && (#[trigger] prev[j])@ == s;
                            assert(visited@[j] == prev[j]);
                        }
                        if exists|j: int| 0 <= j < visited@.len() && (#[trigger] visited@[j])@ == s {
                            let j = choose|j: int| 0 <= j < visited@.len() && (#[trigger] visited@[j])@ == s;
                            if j < prev.len() {
                                assert(visited@[j] == prev[j]);
                            }
                        }
                    }
                }
                token = next;
            },
            None => {
                break;
            },
        }
    }
    let lowered = lowercase(token.as_str());
    resolve_lowered(token.as_str(), lowered.as_str(), available_versions)
}

/// The message shown for an error, naming what could not be resolved.
pub open spec fn error_message(e: ResolveError) -> Seq<char> {
    match e {
        ResolveError::AliasCycle(n) => "Alias cycle detected at: "@ + n@,
        ResolveError::NoVersionsAvailable => "No versions available"@,
        ResolveError::NoLtsFound => "No LTS version found"@,
        ResolveError::LtsCodenameNotFound(c) => "LTS version '"@ + c@ + "' not found"@,
        ResolveError::UnknownVersionOrAlias(t) => "Unknown version or alias: "@ + t@,
    }
}

impl ResolveError {
    /// The message shown to the user.
    pub fn message(&self) -> (r: String)
        ensures
            r@ == error_message(*self),
    {
        proof {
            reveal_strlit("Alias cycle detected at: ");
            reveal_strlit("No versions available");
            reveal_strlit("No LTS version found");
            reveal_strlit("LTS version '");
            reveal_strlit("' not found");
            reveal_strlit("Unknown version or alias: ");
        }
        match self {
            ResolveError::AliasCycle(n) => {
                let mut s = String::from_str("Alias cycle detected at: ");
                s.append(n.as_str());
                s
            },
            ResolveError::NoVersionsAvailable => String::from_str("No versions available"),
            ResolveError::NoLtsFound => String::from_str("No LTS version found"),
            ResolveError::LtsCodenameNotFound(c) => {
                let mut s = String::from_str("LTS version '");
                s.append(c.as_str());
                s.append("' not found");
                s
            },
            ResolveError::UnknownVersionOrAlias(t) => {
                let mut s = String::from_str("Unknown version or alias: ");
                s.append(t.as_str());
                s
            },
        }
    }
}

/// Resolution is a function of the store, the catalog and the token: any two
/// results that meet `resolve_version`'s contract on the same inputs agree.
pub proof fn lemma_resolution_deterministic(
    aliases: Aliases,
    cat: Seq<NodeVersion>,
    token: Seq<char>,
    r1: Result<String, ResolveError>,
    r2: Result<String, ResolveError>,
)
    requires
        outcome(r1) == resolution(aliases@, cat, token),
        outcome(r2) == resolution(aliases@, cat, token),
    ensures
        outcome(r1) == outcome(r2),
        r1 is Ok <==> r2 is Ok,
        r1 is Ok ==> r1->Ok_0@ == r2->Ok_0@,
{
}

/// A fully qualified version, with or without its `v`, resolves to itself
/// with a `v`, whatever the catalog holds, unless an alias of that very name
/// says otherwise.
pub proof fn lemma_literal_short_circuit(aliases: Aliases, cat: Seq<NodeVersion>, token: Seq<char>)
    requires
        aliases.wf(),
        is_full_version(token),
        !aliases@.contains_key(token) || crate::semver::looks_like_version(token),
    ensures
        resolution(aliases@, cat, token) == Resolution::Found(normalized(token)),
{
    crate::aliases::lemma_dom_finite(aliases.aliases@);
}

} // verus!
