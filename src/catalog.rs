//! The remote catalog: one record per published release, newest first, and
//! the filters applied before listing it.
use vstd::prelude::*;

use crate::text::{
    contains_str, ends_with_str, lower_of, lowercase, str_contains, str_ends_with,
};

verus! {

/// The LTS tag of a release: a flag, or the codename of its LTS line.
#[derive(Debug, Clone)]
pub enum LtsInfo {
    Bool(bool),
    Name(String),
}

pub open spec fn lts_flag(l: LtsInfo) -> bool {
    match l {
        LtsInfo::Bool(b) => b,
        LtsInfo::Name(_) => true,
    }
}

pub open spec fn lts_codename(l: LtsInfo) -> Option<Seq<char>> {
    match l {
        LtsInfo::Name(n) => Some(n@),
        LtsInfo::Bool(_) => None,
    }
}

impl LtsInfo {
    /// Whether the release belongs to an LTS line.
    pub fn is_lts(&self) -> (r: bool)
        ensures
            r == lts_flag(*self),
    {
        match self {
            LtsInfo::Bool(b) => *b,
            LtsInfo::Name(_) => true,
        }
    }

    /// The codename of the LTS line, if the tag carries one.
    pub fn name(&self) -> (r: Option<&str>)
        ensures
            match r {
                Some(n) => lts_codename(*self) == Some(n@),
                None => lts_codename(*self) is None,
            },
    {
        match self {
            LtsInfo::Name(n) => Some(n.as_str()),
            LtsInfo::Bool(_) => None,
        }
    }
}

impl Default for LtsInfo {
    fn default() -> (r: LtsInfo)
        ensures
            r == LtsInfo::Bool(false),
    {
        LtsInfo::Bool(false)
    }
}

/// One release of the remote index.
#[derive(Debug, Clone)]
pub struct NodeVersion {
    pub version: String,
    pub date: String,
    pub files: Vec<String>,
    pub npm: Option<String>,
    pub v8: Option<String>,
    pub uv: Option<String>,
    pub zlib: Option<String>,
    pub openssl: Option<String>,
    pub modules: Option<String>,
    pub lts: LtsInfo,
    pub security: bool,
}

/// Filters for listing the catalog.
#[derive(Debug)]
pub struct VersionFilter {
    pub lts_only: bool,
    pub latest_only: bool,
    pub platform: Option<String>,
}

/// The archive family that a platform name selects: a key that the file name
/// holds and the extension it ends with.
pub open spec fn platform_key(lower_platform: Seq<char>) -> (Seq<char>, Seq<char>) {
    if contains_str(lower_platform, "win"@) {
        ("win"@, "zip"@)
    } else if contains_str(lower_platform, "darwin"@) || contains_str(lower_platform, "mac"@) {
        ("darwin"@, "tar.gz"@)
    } else {
        ("linux"@, "tar.gz"@)
    }
}

/// A file entry of the catalog that is an archive for the selected platform.
pub open spec fn file_matches(file: Seq<char>, key: (Seq<char>, Seq<char>)) -> bool {
    contains_str(lower_of(file), key.0) && ends_with_str(lower_of(file), key.1)
}

pub open spec fn has_platform_file(v: NodeVersion, key: (Seq<char>, Seq<char>)) -> bool {
    exists|i: int| 0 <= i < v.files@.len() && file_matches(#[trigger] v.files@[i]@, key)
}

/// Whether a record passes the LTS and platform filters.
pub open spec fn passes(f: VersionFilter, v: NodeVersion) -> bool {
    &&& (f.lts_only ==> lts_flag(v.lts))
    &&& match f.platform {
        Some(p) => has_platform_file(v, platform_key(lower_of(p@))),
        None => true,
    }
}

/// What `apply` returns: the records that pass, in order, cut to the first
/// one when only the latest is asked for.
pub open spec fn passes_fn(f: VersionFilter) -> spec_fn(NodeVersion) -> bool {
    |v: NodeVersion| passes(f, v)
}

pub open spec fn filtered(f: VersionFilter, versions: Seq<NodeVersion>) -> Seq<NodeVersion> {
    let kept = versions.filter(passes_fn(f));
    if f.latest_only && kept.len() > 0 {
        seq![kept[0]]
    } else {
        kept
    }
}

impl VersionFilter {
    /// No filter at all.
    pub fn new() -> (r: VersionFilter)
        ensures
            !r.lts_only,
            !r.latest_only,
            r.platform is None,
    {
        VersionFilter { lts_only: false, latest_only: false, platform: None }
    }

    /// Keeps LTS releases only.
    pub fn lts_only(self) -> (r: VersionFilter)
        ensures
            r.lts_only,
            r.latest_only == self.latest_only,
            r.platform == self.platform,
    {
        VersionFilter { lts_only: true, ..self }
    }

    /// Keeps the first release only.
    pub fn latest_only(self) -> (r: VersionFilter)
        ensures
            r.latest_only,
            r.lts_only == self.lts_only,
            r.platform == self.platform,
    {
        VersionFilter { latest_only: true, ..self }
    }

    /// Keeps releases that publish an archive for the platform.
    pub fn platform(self, platform: String) -> (r: VersionFilter)
        ensures
            r.platform == Some(platform),
            r.lts_only == self.lts_only,
            r.latest_only == self.latest_only,
    {
        VersionFilter { platform: Some(platform), ..self }
    }

    fn selected_key(&self) -> (r: Option<(&'static str, &'static str)>)
        ensures
            match self.platform {
                Some(p) => r is Some && (r->Some_0.0@, r->Some_0.1@) == platform_key(lower_of(p@)),
                None => r is None,
            },
    {
        match &self.platform {
            Some(p) => {
                let lp = lowercase(p.as_str());
                proof {
                    reveal_strlit("win");
                    reveal_strlit("darwin");
                    reveal_strlit("mac");
                    reveal_strlit("zip");
                    reveal_strlit("tar.gz");
                    reveal_strlit("linux");
                }
                if str_contains(lp.as_str(), "win") {
                    Some(("win", "zip"))
                } else if str_contains(lp.as_str(), "darwin") || str_contains(lp.as_str(), "mac") {
                    Some(("darwin", "tar.gz"))
                } else {
                    Some(("linux", "tar.gz"))
                }
            },
            None => None,
        }
    }

    fn has_file(v: &NodeVersion, key: (&str, &str)) -> (r: bool)
        ensures
            r == has_platform_file(*v, (key.0@, key.1@)),
    {
        let mut i: usize = 0;
        while i < v.files.len()
            invariant
                i <= v.files@.len(),
                forall|j: int| 0 <= j < i ==> !file_matches(#[trigger] v.files@[j]@, (key.0@, key.1@)),
            decreases v.files@.len() - i,
        {
            let f = lowercase(v.files[i].as_str());
            if str_contains(f.as_str(), key.0) && str_ends_with(f.as_str(), key.1) {
                assert(file_matches(v.files@[i as int]@, (key.0@, key.1@)));
                return true;
            }
            i = i + 1;
        }
        false
    }

    /// The records that pass the filters, in their order; only the first of
    /// them when `latest_only` is set.
    pub fn apply(&self, versions: Vec<NodeVersion>) -> (r: Vec<NodeVersion>)
        ensures
            r@ == filtered(*self, versions@),
    {
        let key = self.selected_key();
        let ghost pred = passes_fn(*self);
        let ghost orig = versions@;
        let mut rest = versions;
        let mut kept: Vec<NodeVersion> = Vec::new();
        let ghost mut i: int = 0;
        while rest.len() > 0
            invariant
                0 <= i <= orig.len(),
                pred == passes_fn(*self),
                i + rest@.len() == orig.len(),
                rest@ == orig.skip(i),
                kept@ == orig.take(i).filter(pred),
                match self.platform {
                    Some(p) => key is Some && (key->Some_0.0@, key->Some_0.1@) == platform_key(
                        lower_of(p@),
                    ),
                    None => key is None,
                },
            decreases rest@.len(),
        {
            let v = rest.remove(0);
            let lts_ok = !self.lts_only || v.lts.is_lts();
            let platform_ok = match key {
                Some(k) => Self::has_file(&v, k),
                None => true,
            };
            proof {
                assert(v == orig[i]);
                assert(orig.take(i + 1).drop_last() =~= orig.take(i));
                assert(orig.take(i + 1).last() == v);
                assert(orig.skip(i + 1) =~= rest@);
                assert(lts_ok == (self.lts_only ==> lts_flag(v.lts)));
                assert(platform_ok == match self.platform {
                    Some(p) => has_platform_file(v, platform_key(lower_of(p@))),
                    None => true,
                });
                assert((lts_ok && platform_ok) == passes(*self, v));
                assert((lts_ok && platform_ok) == pred(v));
            }
            if lts_ok && platform_ok {
                kept.push(v);
            }
            proof {
                reveal(Seq::filter);
                assert(kept@ == orig.take(i + 1).filter(pred));
                i = i + 1;
            }
        }
        proof {
            assert(orig.take(i) =~= orig);
        }
        if self.latest_only && kept.len() > 0 {
            let ghost v0 = kept@[0];
            let mut first: Vec<NodeVersion> = Vec::new();
            let v = kept.remove(0);
            first.push(v);
            assert(first@ =~= seq![v0]);
            first
        } else {
            kept
        }
    }
}

pub open spec fn display_line(v: NodeVersion) -> Seq<char> {
    match lts_codename(v.lts) {
        Some(n) => "  "@ + v.version@ + " (LTS: "@ + n + ")"@,
        None => "  "@ + v.version@,
    }
}

/// One line of a remote listing: the version, and the LTS codename if any.
pub fn format_version_display(version: &NodeVersion) -> (r: String)
    ensures
        r@ == display_line(*version),
{
    proof {
        reveal_strlit("  ");
        reveal_strlit(" (LTS: ");
        reveal_strlit(")");
    }
    let mut s = String::from_str("  ");
    s.append(version.version.as_str());
    match version.lts.name() {
        Some(n) => {
            s.append(" (LTS: ");
            s.append(n);
            s.append(")");
        },
        None => {},
    }
    s
}

/// Index of the first catalog record of version `v`.
pub open spec fn is_first_record(cat: Seq<NodeVersion>, v: Seq<char>, i: int) -> bool {
    &&& 0 <= i < cat.len()
    &&& cat[i].version@ == v
    &&& forall|j: int| 0 <= j < i ==> (#[trigger] cat[j]).version@ != v
}

/// The position of the first record of `version`, if the catalog has one.
pub fn find_record(catalog: &[NodeVersion], version: &str) -> (r: Option<usize>)
    ensures
        match r {
            Some(i) => is_first_record(catalog@, version@, i as int),
            None => forall|j: int| 0 <= j < catalog@.len() ==> (#[trigger] catalog@[j]).version@ != version@,
        },
{
    let mut i: usize = 0;
    while i < catalog.len()
        invariant
            i <= catalog@.len(),
            forall|j: int| 0 <= j < i ==> (#[trigger] catalog@[j]).version@ != version@,
        decreases catalog@.len() - i,
    {
        if crate::text::str_eq(catalog[i].version.as_str(), version) {
            return Some(i);
        }
        i = i + 1;
    }
    None
}

/// What an installed version's line shows besides the version: its LTS
/// codename, a security mark, or nothing.
#[derive(Debug, Clone, PartialEq, Eq)]
pub enum ExtraInfo {
    Lts(String),
    Security,
    Plain,
}

pub open spec fn extra_info_spec(cat: Seq<NodeVersion>, v: Seq<char>, r: ExtraInfo) -> bool {
    if exists|i: int| is_first_record(cat, v, i) {
        let rec = cat[choose|i: int| is_first_record(cat, v, i)];
        match lts_codename(rec.lts) {
            Some(n) => r is Lts && r->Lts_0@ == n,
            None => r == (if rec.security {
                ExtraInfo::Security
            } else {
                ExtraInfo::Plain
            }),
        }
    } else {
        r == ExtraInfo::Plain
    }
}

proof fn lemma_first_record_unique(cat: Seq<NodeVersion>, v: Seq<char>, i: int)
    requires
        is_first_record(cat, v, i),
    ensures
        (choose|k: int| is_first_record(cat, v, k)) == i,
{
    let k = choose|k: int| is_first_record(cat, v, k);
    if k < i {
        assert(cat[k].version@ != v);
    } else if k > i {
        assert(cat[i].version@ != v);
    }
}

/// The extra information for an installed version, from its catalog record.
pub fn installed_extra_info(version: &str, catalog: &[NodeVersion]) -> (r: ExtraInfo)
    ensures
        extra_info_spec(catalog@, version@, r),
{
    match find_record(catalog, version) {
        Some(i) => {
            proof {
                lemma_first_record_unique(catalog@, version@, i as int);
            }
            match catalog[i].lts.name() {
                Some(n) => ExtraInfo::Lts(String::from_str(n)),
                None => if catalog[i].security {
                    ExtraInfo::Security
                } else {
                    ExtraInfo::Plain
                },
            }
        },
        None => ExtraInfo::Plain,
    }
}

/// An alias may point at a version that is installed or that the catalog
/// lists.
pub fn alias_target_known(resolved: &str, installed: bool, catalog: &[NodeVersion]) -> (r: bool)
    ensures
        r == (installed || exists|j: int| 0 <= j < catalog@.len() && (#[trigger] catalog@[j]).version@ == resolved@),
{
    if installed {
        return true;
    }
    match find_record(catalog, resolved) {
        Some(i) => {
            assert(catalog@[i as int].version@ == resolved@);
            true
        },
        None => false,
    }
}

} // verus!
