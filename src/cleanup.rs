//! Which installed versions a cleanup removes, and which version a project's
//! `.nvmrc` asks for.
use vstd::prelude::*;

use crate::catalog::{is_first_record, lts_flag, NodeVersion};
use crate::text::{str_eq, trim_text, trimmed};

verus! {

/// The catalog lists `v` as an LTS release (by its first record of `v`).
pub open spec fn listed_lts(cat: Seq<NodeVersion>, v: Seq<char>) -> bool {
    exists|i: int| is_first_record(cat, v, i) && lts_flag(cat[i].lts)
}

/// A cleanup keeps the active version and every LTS release.
pub open spec fn kept_by_cleanup(v: Seq<char>, current: Option<Seq<char>>, cat: Seq<NodeVersion>) -> bool {
    current == Some(v) || listed_lts(cat, v)
}

pub open spec fn str_opt(o: Option<&str>) -> Option<Seq<char>> {
    match o {
        Some(c) => Some(c@),
        None => None,
    }
}

pub open spec fn keeps(current: Option<Seq<char>>, cat: Seq<NodeVersion>) -> spec_fn(String) -> bool {
    |v: String| kept_by_cleanup(v@, current, cat)
}

pub open spec fn drops(current: Option<Seq<char>>, cat: Seq<NodeVersion>) -> spec_fn(String) -> bool {
    |v: String| !kept_by_cleanup(v@, current, cat)
}

fn is_listed_lts(cat: &[NodeVersion], v: &str) -> (r: bool)
    ensures
        r == listed_lts(cat@, v@),
{
    let mut i: usize = 0;
    while i < cat.len()
        invariant
            i <= cat@.len(),
            forall|j: int| 0 <= j < i ==> (#[trigger] cat@[j]).version@ != v@,
        decreases cat@.len() - i,
    {
        if str_eq(cat[i].version.as_str(), v) {
            let r = cat[i].lts.is_lts();
            proof {
                assert(is_first_record(cat@, v@, i as int));
                if !r {
                    assert forall|k: int| is_first_record(cat@, v@, k) implies !lts_flag(cat@[k].lts) by {
                        if k < i {
                            assert(cat@[k].version@ != v@);
                        } else if k > i {
                            assert(cat@[i as int].version@ != v@);
                        }
                    }
                }
            }
            return r;
        }
        i = i + 1;
    }
    false
}

/// The versions to keep and to remove, each in the installed order.
pub struct CleanupPlan {
    pub keep: Vec<String>,
    pub remove: Vec<String>,
}

/// Splits the installed versions into those a cleanup keeps (the active
/// one and the LTS releases) and those it removes.
pub fn plan_cleanup(installed: &Vec<String>, current: Option<&str>, catalog: &[NodeVersion]) -> (r:
    CleanupPlan)
    ensures
        r.keep@ == installed@.filter(keeps(str_opt(current), catalog@)),
        r.remove@ == installed@.filter(drops(str_opt(current), catalog@)),
{
    let ghost cur = str_opt(current);
    let ghost keep_p = keeps(cur, catalog@);
    let ghost drop_p = drops(cur, catalog@);
    let mut keep: Vec<String> = Vec::new();
    let mut remove: Vec<String> = Vec::new();
    let mut i: usize = 0;
    while i < installed.len()
        invariant
            i <= installed@.len(),
            keep_p == keeps(cur, catalog@),
            drop_p == drops(cur, catalog@),
            cur == str_opt(current),
            keep@ == installed@.take(i as int).filter(keep_p),
            remove@ == installed@.take(i as int).filter(drop_p),
        decreases installed@.len() - i,
    {
        let v = installed[i].clone();
        let is_current = match current {
            Some(c) => str_eq(c, v.as_str()),
            None => false,
        };
        let k = is_current || is_listed_lts(catalog, v.as_str());
        proof {
            assert(installed@.take(i + 1).drop_last() =~= installed@.take(i as int));
            assert(installed@.take(i + 1).last() == v);
            assert(k == keep_p(v));
            reveal(Seq::filter);
        }
        if k {
            keep.push(v);
        } else {
            remove.push(v);
        }
        i = i + 1;
    }
    proof {
        assert(installed@.take(i as int) =~= installed@);
    }
    CleanupPlan { keep, remove }
}

/// The first line of `s`: everything before the first line feed.
pub open spec fn first_line(s: Seq<char>) -> Seq<char> {
    if exists|i: int| 0 <= i < s.len() && s[i] == '\n' {
        s.take(choose|i: int| 0 <= i < s.len() && s[i] == '\n' && forall|j: int| 0 <= j < i ==> s[j] != '\n')
    } else {
        s
    }
}

/// The version that a `.nvmrc` file's text asks for: its first line,
/// trimmed, when that is not empty.
pub open spec fn nvmrc_request(text: Seq<char>) -> Option<Seq<char>> {
    if trimmed(first_line(text)).len() > 0 {
        Some(trimmed(first_line(text)))
    } else {
        None
    }
}

/// Reads the requested version out of a `.nvmrc` file's text.
pub fn nvmrc_version(text: &str) -> (r: Option<String>)
    ensures
        match r {
            Some(v) => nvmrc_request(text@) == Some(v@),
            None => nvmrc_request(text@) is None,
        },
{
    let n = text.unicode_len();
    let mut i: usize = 0;
    while i < n && text.get_char(i) != '\n'
        invariant
            i <= n,
            n == text@.len(),
            forall|j: int| 0 <= j < i ==> text@[j] != '\n',
        decreases n - i,
    {
        i = i + 1;
    }
    proof {
        if i < n {
            let k = choose|k: int|
                0 <= k < text@.len() && text@[k] == '\n' && forall|j: int| 0 <= j < k ==> text@[j] != '\n';
            if k < i {
                assert(text@[k] != '\n');
            } else if k > i {
                assert(text@[i as int] == '\n');
            }
            assert(first_line(text@) == text@.take(i as int));
        } else {
            assert(first_line(text@) == text@);
            assert(text@.take(i as int) =~= text@);
        }
        assert(text@.subrange(0, i as int) =~= text@.take(i as int));
    }
    let line = text.substring_char(0, i);
    let t = trim_text(line);
    if t.unicode_len() > 0 {
        Some(t)
    } else {
        None
    }
}

} // verus!
