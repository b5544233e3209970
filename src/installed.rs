//! The installed-version index: which version directories are on disk, and
//! when the side-car cache of that list may stand in for a fresh scan.
use vstd::prelude::*;

use crate::semver::{looks_like_version, looks_like_version_name, sort_versions, sorted_descending};

verus! {

/// One entry of the versions directory: its name and whether it is a
/// directory.
#[derive(Debug)]
pub struct DirEntryInfo {
    pub name: String,
    pub is_dir: bool,
}

/// An entry that counts as an installed version: a directory named `v`
/// followed by a digit.
pub open spec fn is_installed_entry(e: DirEntryInfo) -> bool {
    e.is_dir && looks_like_version(e.name@)
}

pub open spec fn installed_names(entries: Seq<DirEntryInfo>) -> Seq<String> {
    entries.filter(|e: DirEntryInfo| is_installed_entry(e)).map_values(|e: DirEntryInfo| e.name)
}

/// What a scan gives: the installed entries' names, newest first.
pub open spec fn is_scan_of(r: Seq<String>, entries: Seq<DirEntryInfo>) -> bool {
    &&& r.to_multiset() == installed_names(entries).to_multiset()
    &&& sorted_descending(r)
}

/// The installed versions among the entries of the versions directory,
/// newest first.
pub fn installed_versions(entries: Vec<DirEntryInfo>) -> (r: Vec<String>)
    ensures
        is_scan_of(r@, entries@),
{
    let ghost orig = entries@;
    let ghost pred = |e: DirEntryInfo| is_installed_entry(e);
    let mut rest = entries;
    let mut names: Vec<String> = Vec::new();
    let ghost mut i: int = 0;
    while rest.len() > 0
        invariant
            0 <= i <= orig.len(),
            pred == (|e: DirEntryInfo| is_installed_entry(e)),
            i + rest@.len() == orig.len(),
            rest@ == orig.skip(i),
            names@ == orig.take(i).filter(pred).map_values(|e: DirEntryInfo| e.name),
        decreases rest@.len(),
    {
        let e = rest.remove(0);
        let keep = e.is_dir && looks_like_version_name(e.name.as_str());
        proof {
            assert(e == orig[i]);
            assert(orig.take(i + 1).drop_last() =~= orig.take(i));
            assert(orig.take(i + 1).last() == e);
            assert(orig.skip(i + 1) =~= rest@);
            assert(keep == pred(e));
            reveal(Seq::filter);
        }
        if keep {
            names.push(e.name);
        }
        proof {
            let f0 = orig.take(i).filter(pred);
            let f1 = orig.take(i + 1).filter(pred);
            if keep {
                assert(f1 == f0.push(e));
                assert(names@ =~= f1.map_values(|e: DirEntryInfo| e.name));
            } else {
                assert(f1 == f0);
            }
            i = i + 1;
        }
    }
    proof {
        assert(orig.take(i) =~= orig);
    }
    sort_versions(&mut names);
    names
}

/// What the installed cache is rewritten with after an install or an
/// uninstall: a fresh scan.
pub fn refresh_installed_cache(entries: Vec<DirEntryInfo>) -> (r: Vec<String>)
    ensures
        is_scan_of(r@, entries@),
{
    installed_versions(entries)
}

/// A cache written `age` seconds ago is fresh while younger than its TTL.
pub open spec fn fresh(age_secs: int, ttl_minutes: int) -> bool {
    age_secs < ttl_minutes * 60
}

/// Whether a cache of the given age may stand in for a scan.
pub fn cache_is_fresh(age_secs: u64, ttl_minutes: u64) -> (r: bool)
    ensures
        r == fresh(age_secs as int, ttl_minutes as int),
{
    (age_secs as u128) < (ttl_minutes as u128) * 60
}

/// What to do for a listing of installed versions.
#[derive(Clone, Copy, Debug, PartialEq, Eq, Structural)]
pub enum CacheAction {
    /// Return the cache's contents.
    UseCache,
    /// Scan the directory and rewrite the cache with the result.
    Rescan,
}

pub open spec fn cache_action_spec(age_secs: Option<u64>, ttl_minutes: u64) -> CacheAction {
    match age_secs {
        Some(a) => if fresh(a as int, ttl_minutes as int) {
            CacheAction::UseCache
        } else {
            CacheAction::Rescan
        },
        None => CacheAction::Rescan,
    }
}

/// Decides from the cache's age (`None` when there is no readable cache)
/// whether to use it or to scan again.
pub fn installed_cache_action(cache_age_secs: Option<u64>, ttl_minutes: u64) -> (r: CacheAction)
    ensures
        r == cache_action_spec(cache_age_secs, ttl_minutes),
{
    match cache_age_secs {
        Some(a) => if cache_is_fresh(a, ttl_minutes) {
            CacheAction::UseCache
        } else {
            CacheAction::Rescan
        },
        None => CacheAction::Rescan,
    }
}

/// The cache file as a model: what it holds, and how old it is.
pub struct CacheModel {
    pub contents: Seq<String>,
    pub age_secs: Option<u64>,
}

/// What a listing returns: the cache's contents when it is used, else
/// `scan` (a fresh scan of the directory).
pub open spec fn listing(cache: CacheModel, ttl_minutes: u64, scan: Seq<String>) -> Seq<String> {
    if cache_action_spec(cache.age_secs, ttl_minutes) == CacheAction::UseCache {
        cache.contents
    } else {
        scan
    }
}

/// After the cache is refreshed with a scan of the directory, a listing gives
/// that scan, however old the cache is by then and whatever the TTL, as long
/// as the directory is unchanged.
pub proof fn lemma_refresh_then_list(
    entries: Seq<DirEntryInfo>,
    written: Seq<String>,
    scan: Seq<String>,
    age_secs: Option<u64>,
    ttl_minutes: u64,
)
    requires
        is_scan_of(written, entries),
        is_scan_of(scan, entries),
    ensures
        is_scan_of(listing(CacheModel { contents: written, age_secs }, ttl_minutes, scan), entries),
        age_secs == Some(0u64) && ttl_minutes > 0 ==> listing(
            CacheModel { contents: written, age_secs },
            ttl_minutes,
            scan,
        ) == written,
{
}

} // verus!
