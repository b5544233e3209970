//! The alias store: user-defined names that stand for a version or for
//! another alias.
use vstd::prelude::*;

use crate::semver::{is_digit, looks_like_version, looks_like_version_name};
use crate::text::{
    alphanumeric, is_alphanumeric, lemma_str_lt_total, lemma_str_lt_transitive, str_eq, str_less,
    str_lt,
};

verus! {

/// Name to target, one entry per name.
#[derive(Debug, Clone)]
pub struct Aliases {
    pub aliases: Vec<(String, String)>,
}

pub open spec fn keys_unique(e: Seq<(String, String)>) -> bool {
    forall|i: int, j: int| 0 <= i < e.len() && 0 <= j < e.len() && i != j ==> #[trigger] e[i].0@
        != #[trigger] e[j].0@
}

pub open spec fn has_key(e: Seq<(String, String)>, k: Seq<char>) -> bool {
    exists|i: int| 0 <= i < e.len() && #[trigger] e[i].0@ == k
}

/// The mapping that a list of entries with distinct names holds.
pub open spec fn entries_map(e: Seq<(String, String)>) -> Map<Seq<char>, Seq<char>> {
    Map::new(
        |k: Seq<char>| has_key(e, k),
        |k: Seq<char>| e[choose|i: int| 0 <= i < e.len() && #[trigger] e[i].0@ == k].1@,
    )
}

/// Entries ordered strictly by name.
pub open spec fn sorted_by_name(e: Seq<(String, String)>) -> bool {
    forall|i: int, j: int| 0 <= i < j < e.len() ==> str_lt(#[trigger] e[i].0@, #[trigger] e[j].0@)
}

/// `l` lists the store's pairs, each once, ordered by name.
pub open spec fn is_listing(m: Map<Seq<char>, Seq<char>>, l: Seq<(String, String)>) -> bool {
    &&& l.len() == m.dom().len()
    &&& sorted_by_name(l)
    &&& forall|i: int|
        0 <= i < l.len() ==> m.contains_key(#[trigger] l[i].0@) && m[l[i].0@] == l[i].1@
    &&& forall|k: Seq<char>| #[trigger] m.contains_key(k) ==> has_key(l, k)
}

/// A valid alias name: not empty, not starting with a digit or with `v` and a
/// digit (so that it cannot be taken for a version), and made of
/// letters, digits, `-`, `_` and `/`.
pub open spec fn valid_alias_name(s: Seq<char>) -> bool {
    &&& s.len() > 0
    &&& !looks_like_version(s)
    &&& !is_digit(s[0])
    &&& forall|i: int|
        0 <= i < s.len() ==> (alphanumeric(#[trigger] s[i]) || s[i] == '-' || s[i] == '_' || s[i]
            == '/')
}

/// What one resolution step of the store gives for a token: the token itself
/// when it looks like a version, else the alias's target, if any.
pub open spec fn alias_step(m: Map<Seq<char>, Seq<char>>, t: Seq<char>) -> Option<Seq<char>> {
    if looks_like_version(t) {
        Some(t)
    } else if m.contains_key(t) {
        Some(m[t])
    } else {
        None
    }
}

impl View for Aliases {
    type V = Map<Seq<char>, Seq<char>>;

    open spec fn view(&self) -> Map<Seq<char>, Seq<char>> {
        entries_map(self.aliases@)
    }
}

proof fn lemma_lookup(e: Seq<(String, String)>, i: int)
    requires
        keys_unique(e),
        0 <= i < e.len(),
    ensures
        entries_map(e).contains_key(e[i].0@),
        entries_map(e)[e[i].0@] == e[i].1@,
{
    assert(has_key(e, e[i].0@));
}

impl Aliases {
    pub open spec fn wf(&self) -> bool {
        keys_unique(self.aliases@)
    }

    /// An empty store.
    pub fn new() -> (r: Aliases)
        ensures
            r.wf(),
            r@ == Map::<Seq<char>, Seq<char>>::empty(),
    {
        let r = Aliases { aliases: Vec::new() };
        assert(r@ =~= Map::<Seq<char>, Seq<char>>::empty());
        r
    }

    fn find(&self, name: &str) -> (r: Option<usize>)
        requires
            self.wf(),
        ensures
            match r {
                Some(i) => i < self.aliases@.len() && self.aliases@[i as int].0@ == name@,
                None => !has_key(self.aliases@, name@),
            },
    {
        let mut i: usize = 0;
        while i < self.aliases.len()
            invariant
                i <= self.aliases@.len(),
                forall|j: int| 0 <= j < i ==> self.aliases@[j].0@ != name@,
            decreases self.aliases@.len() - i,
        {
            if str_eq(self.aliases[i].0.as_str(), name) {
                return Some(i);
            }
            i = i + 1;
        }
        None
    }

    /// Adds the alias, or replaces its target.
    pub fn set(&mut self, name: String, version: String)
        requires
            old(self).wf(),
        ensures
            final(self).wf(),
            final(self)@ == old(self)@.insert(name@, version@),
    {
        let ghost old_e = self.aliases@;
        let ghost k = name@;
        let ghost v = version@;
        match self.find(name.as_str()) {
            Some(i) => {
                self.aliases.set(i, (name, version));
                proof {
                    let e = self.aliases@;
                    assert(keys_unique(e)) by {
                        assert forall|a: int, b: int|
                            0 <= a < e.len() && 0 <= b < e.len() && a != b implies #[trigger] e[a].0@
                            != #[trigger] e[b].0@ by {
                            if a != i && b != i {
                                assert(e[a] == old_e[a] && e[b] == old_e[b]);
                            } else if a == i {
                                assert(old_e[i as int].0@ == k);
                                assert(e[b] == old_e[b]);
                            } else {
                                assert(old_e[i as int].0@ == k);
                                assert(e[a] == old_e[a]);
                            }
                        }
                    }
                    assert forall|kk: Seq<char>| #[trigger] has_key(e, kk) == has_key(old_e, kk) by {
                        if has_key(e, kk) {
                            let j = choose|j: int| 0 <= j < e.len() && #[trigger] e[j].0@ == kk;
                            assert(old_e[j].0@ == kk);
                        }
                        if has_key(old_e, kk) {
                            let j = choose|j: int| 0 <= j < old_e.len() && #[trigger] old_e[j].0@
                                == kk;
                            assert(e[j].0@ == kk);
                        }
                    }
                    assert forall|kk: Seq<char>| #[trigger]
                        entries_map(e).contains_key(kk) && kk != k implies entries_map(e)[kk]
                        == entries_map(old_e)[kk] by {
                        let j = choose|j: int| 0 <= j < e.len() && #[trigger] e[j].0@ == kk;
                        lemma_lookup(e, j);
                        assert(e[j] == old_e[j]);
                        lemma_lookup(old_e, j);
                    }
                    lemma_lookup(e, i as int);
                    assert(entries_map(e) =~= entries_map(old_e).insert(k, v));
                }
            },
            None => {
                self.aliases.push((name, version));
                proof {
                    let e = self.aliases@;
                    let n = old_e.len() as int;
                    assert(keys_unique(e)) by {
                        assert forall|a: int, b: int|
                            0 <= a < e.len() && 0 <= b < e.len() && a != b implies #[trigger] e[a].0@
                            != #[trigger] e[b].0@ by {
                            if a != n && b != n {
                                assert(e[a] == old_e[a] && e[b] == old_e[b]);
                            } else if a == n {
                                assert(e[b] == old_e[b]);
                            } else {
                                assert(e[a] == old_e[a]);
                            }
                        }
                    }
                    assert forall|kk: Seq<char>| #[trigger]
                        has_key(e, kk) == (has_key(old_e, kk) || kk == k) by {
                        if has_key(e, kk) {
                            let j = choose|j: int| 0 <= j < e.len() && #[trigger] e[j].0@ == kk;
                            if j < n {
                                assert(old_e[j].0@ == kk);
                            }
                        }
                        if has_key(old_e, kk) {
                            let j = choose|j: int| 0 <= j < old_e.len() && #[trigger] old_e[j].0@
                                == kk;
                            assert(e[j].0@ == kk);
                        }
                        if kk == k {
                            assert(e[n].0@ == kk);
                        }
                    }
                    assert forall|kk: Seq<char>| #[trigger]
                        entries_map(e).contains_key(kk) && kk != k implies entries_map(e)[kk]
                        == entries_map(old_e)[kk] by {
                        let j = choose|j: int| 0 <= j < e.len() && #[trigger] e[j].0@ == kk;
                        lemma_lookup(e, j);
                        assert(e[j] == old_e[j]);
                        lemma_lookup(old_e, j);
                    }
                    lemma_lookup(e, n);
                    assert(entries_map(e) =~= entries_map(old_e).insert(k, v));
                }
            },
        }
    }

    /// Removes the alias and returns its target, if it was there.
    pub fn remove(&mut self, name: &str) -> (r: Option<String>)
        requires
            old(self).wf(),
        ensures
            final(self).wf(),
            final(self)@ == old(self)@.remove(name@),
            match r {
                Some(t) => old(self)@.contains_key(name@) && t@ == old(self)@[name@],
                None => !old(self)@.contains_key(name@),
            },
    {
        let ghost old_e = self.aliases@;
        match self.find(name) {
            Some(i) => {
                proof {
                    lemma_lookup(old_e, i as int);
                }
                let (_, target) = self.aliases.remove(i);
                proof {
                    let e = self.aliases@;
                    assert forall|a: int| 0 <= a < e.len() implies #[trigger] e[a] == (if a < i {
                        old_e[a]
                    } else {
                        old_e[a + 1]
                    }) by {}
                    assert(keys_unique(e)) by {
                        assert forall|a: int, b: int|
                            0 <= a < e.len() && 0 <= b < e.len() && a != b implies #[trigger] e[a].0@
                            != #[trigger] e[b].0@ by {
                            let oa = if a < i {
                                a
                            } else {
                                a + 1
                            };
                            let ob = if b < i {
                                b
                            } else {
                                b + 1
                            };
                            assert(e[a] == old_e[oa] && e[b] == old_e[ob]);
                        }
                    }
                    assert forall|kk: Seq<char>| #[trigger]
                        has_key(e, kk) == (has_key(old_e, kk) && kk != name@) by {
                        if has_key(e, kk) {
                            let j = choose|j: int| 0 <= j < e.len() && #[trigger] e[j].0@ == kk;
                            let oj = if j < i {
                                j
                            } else {
                                j + 1
                            };
                            assert(e[j] == old_e[oj]);
                            assert(old_e[oj].0@ == kk);
                        }
                        if has_key(old_e, kk) && kk != name@ {
                            let j = choose|j: int| 0 <= j < old_e.len() && #[trigger] old_e[j].0@
                                == kk;
                            assert(j != i);
                            let nj = if j < i {
                                j
                            } else {
                                j - 1
                            };
                            assert(e[nj] == old_e[j]);
                            assert(e[nj].0@ == kk);
                        }
                    }
                    assert forall|kk: Seq<char>| #[trigger]
                        entries_map(e).contains_key(kk) implies entries_map(e)[kk] == entries_map(
                        old_e,
                    )[kk] by {
                        let j = choose|j: int| 0 <= j < e.len() && #[trigger] e[j].0@ == kk;
                        lemma_lookup(e, j);
                        let oj = if j < i {
                            j
                        } else {
                            j + 1
                        };
                        assert(e[j] == old_e[oj]);
                        lemma_lookup(old_e, oj);
                    }
                    assert(entries_map(e) =~= entries_map(old_e).remove(name@));
                }
                Some(target)
            },
            None => {
                proof {
                    assert(entries_map(old_e) =~= entries_map(old_e).remove(name@));
                }
                None
            },
        }
    }

    /// The target of the alias, if there is one.
    pub fn get(&self, name: &str) -> (r: Option<&String>)
        requires
            self.wf(),
        ensures
            match r {
                Some(t) => self@.contains_key(name@) && t@ == self@[name@],
                None => !self@.contains_key(name@),
            },
    {
        match self.find(name) {
            Some(i) => {
                proof {
                    lemma_lookup(self.aliases@, i as int);
                }
                Some(&self.aliases[i].1)
            },
            None => None,
        }
    }

    /// Whether the alias exists.
    pub fn contains(&self, name: &str) -> (r: bool)
        requires
            self.wf(),
        ensures
            r == self@.contains_key(name@),
    {
        self.find(name).is_some()
    }

    /// All aliases as (name, target) pairs, ordered by name.
    pub fn list(&self) -> (r: Vec<(String, String)>)
        requires
            self.wf(),
        ensures
            is_listing(self@, r@),
    {
        let mut out: Vec<(String, String)> = Vec::new();
        let mut n: usize = 0;
        while n < self.aliases.len()
            invariant
                self.wf(),
                n <= self.aliases@.len(),
                out@.len() == n,
                sorted_by_name(out@),
                forall|i: int|
                    0 <= i < out@.len() ==> exists|j: int|
                        0 <= j < n && #[trigger] self.aliases@[j] == #[trigger] out@[i],
                forall|j: int| 0 <= j < n ==> has_key(out@, #[trigger] self.aliases@[j].0@),
            decreases self.aliases@.len() - n,
        {
            let entry = (self.aliases[n].0.clone(), self.aliases[n].1.clone());
            let mut p: usize = 0;
            while p < out.len() && str_less(out[p].0.as_str(), entry.0.as_str())
                invariant
                    p <= out@.len(),
                    forall|j: int| 0 <= j < p ==> str_lt(#[trigger] out@[j].0@, entry.0@),
                decreases out@.len() - p,
            {
                p = p + 1;
            }
            let ghost old_out = out@;
            proof {
                assert forall|j: int| p <= j < old_out.len() implies str_lt(
                    entry.0@,
                    #[trigger] old_out[j].0@,
                ) by {
                    let jj = choose|jj: int| 0 <= jj < n && #[trigger] self.aliases@[jj] == old_out[j];
                    assert(self.aliases@[jj].0@ != self.aliases@[n as int].0@);
                    lemma_str_lt_total(old_out[p as int].0@, entry.0@);
                    let jp = choose|jp: int| 0 <= jp < n && #[trigger] self.aliases@[jp] == old_out[p as int];
                    assert(self.aliases@[jp].0@ != self.aliases@[n as int].0@);
                    if j > p {
                        lemma_str_lt_transitive(entry.0@, old_out[p as int].0@, old_out[j].0@);
                    }
                }
            }
            out.insert(p, entry);
            proof {
                let o = out@;
                assert forall|a: int, b: int| 0 <= a < b < o.len() implies str_lt(
                    #[trigger] o[a].0@,
                    #[trigger] o[b].0@,
                ) by {
                    if b < p {
                        assert(o[a] == old_out[a] && o[b] == old_out[b]);
                    } else if a > p {
                        assert(o[a] == old_out[a - 1] && o[b] == old_out[b - 1]);
                    } else if a == p {
                        assert(o[b] == old_out[b - 1]);
                    } else if b == p {
                        assert(o[a] == old_out[a]);
                    } else {
                        assert(o[a] == old_out[a] && o[b] == old_out[b - 1]);
                        lemma_str_lt_transitive(o[a].0@, entry.0@, o[b].0@);
                    }
                }
                assert forall|i: int| 0 <= i < o.len() implies exists|j: int|
                    0 <= j < n + 1 && #[trigger] self.aliases@[j] == #[trigger] o[i] by {
                    if i < p {
                        assert(o[i] == old_out[i]);
                    } else if i > p {
                        assert(o[i] == old_out[i - 1]);
                    } else {
                        assert(self.aliases@[n as int] == o[i]);
                    }
                }
                assert forall|j: int| 0 <= j < n + 1 implies has_key(o, #[trigger] self.aliases@[j].0@) by {
                    if j < n {
                        let i = choose|i: int| 0 <= i < old_out.len() && #[trigger] old_out[i].0@
                            == self.aliases@[j].0@;
                        if i < p {
                            assert(o[i] == old_out[i]);
                        } else {
                            assert(o[i + 1] == old_out[i]);
                        }
                    } else {
                        assert(o[p as int].0@ == self.aliases@[j].0@);
                    }
                }
            }
            n = n + 1;
        }
        proof {
            let e = self.aliases@;
            let o = out@;
            assert forall|i: int| 0 <= i < o.len() implies self@.contains_key(#[trigger] o[i].0@)
                && self@[o[i].0@] == o[i].1@ by {
                let j = choose|j: int| 0 <= j < e.len() && #[trigger] e[j] == o[i];
                lemma_lookup(e, j);
            }
            assert forall|k: Seq<char>| #[trigger] self@.contains_key(k) implies has_key(o, k) by {
                let j = choose|j: int| 0 <= j < e.len() && #[trigger] e[j].0@ == k;
                assert(has_key(o, e[j].0@));
            }
            lemma_dom_len(e);
        }
        out
    }

    /// Whether `name` may be used as an alias.
    pub fn is_valid_alias_name(name: &str) -> (r: bool)
        ensures
            r == valid_alias_name(name@),
    {
        let n = name.unicode_len();
        if n == 0 {
            return false;
        }
        if looks_like_version_name(name) {
            return false;
        }
        let first = name.get_char(0);
        if '0' <= first && first <= '9' {
            return false;
        }
        let mut i: usize = 0;
        while i < n
            invariant
                i <= n,
                n == name@.len(),
                forall|j: int|
                    0 <= j < i ==> (alphanumeric(#[trigger] name@[j]) || name@[j] == '-' || name@[j]
                        == '_' || name@[j] == '/'),
            decreases n - i,
        {
            let c = name.get_char(i);
            if !(is_alphanumeric(c) || c == '-' || c == '_' || c == '/') {
                return false;
            }
            i = i + 1;
        }
        true
    }

    /// One step of resolution: a token that looks like a version is returned
    /// as it is, a known alias gives its target, anything else gives `None`.
    pub fn resolve(&self, name_or_version: &str) -> (r: Option<String>)
        requires
            self.wf(),
        ensures
            match r {
                Some(t) => alias_step(self@, name_or_version@) == Some(t@),
                None => alias_step(self@, name_or_version@) is None,
            },
    {
        if looks_like_version_name(name_or_version) {
            return Some(String::from_str(name_or_version));
        }
        match self.get(name_or_version) {
            Some(t) => Some(t.clone()),
            None => None,
        }
    }
}

proof fn lemma_dom_len(e: Seq<(String, String)>)
    requires
        keys_unique(e),
    ensures
        entries_map(e).dom().len() == e.len(),
        entries_map(e).dom().finite(),
    decreases e.len(),
{
    let m = entries_map(e);
    if e.len() == 0 {
        assert(m.dom() =~= Set::<Seq<char>>::empty());
    } else {
        let f = e.drop_last();
        assert(keys_unique(f)) by {
            assert forall|a: int, b: int|
                0 <= a < f.len() && 0 <= b < f.len() && a != b implies #[trigger] f[a].0@
                != #[trigger] f[b].0@ by {
                assert(f[a] == e[a] && f[b] == e[b]);
            }
        }
        lemma_dom_len(f);
        let k = e.last().0@;
        assert forall|kk: Seq<char>| #[trigger] m.dom().contains(kk) == (entries_map(f).dom().contains(kk) || kk == k) by {
            if has_key(e, kk) {
                let j = choose|j: int| 0 <= j < e.len() && #[trigger] e[j].0@ == kk;
                if j < e.len() - 1 {
                    assert(f[j] == e[j]);
                }
            }
            if has_key(f, kk) {
                let j = choose|j: int| 0 <= j < f.len() && #[trigger] f[j].0@ == kk;
                assert(f[j] == e[j]);
            }
            if kk == k {
                assert(e[e.len() - 1].0@ == kk);
            }
        }
        assert(!entries_map(f).dom().contains(k)) by {
            if has_key(f, k) {
                let j = choose|j: int| 0 <= j < f.len() && #[trigger] f[j].0@ == k;
                assert(f[j] == e[j]);
            }
        }
        assert(m.dom() =~= entries_map(f).dom().insert(k));
    }
}

/// The store's names form a finite set.
pub proof fn lemma_dom_finite(e: Seq<(String, String)>)
    requires
        keys_unique(e),
    ensures
        entries_map(e).dom().finite(),
{
    lemma_dom_len(e);
}

impl Default for Aliases {
    fn default() -> (r: Aliases)
        ensures
            r.wf(),
            r@ == Map::<Seq<char>, Seq<char>>::empty(),
    {
        Aliases::new()
    }
}

} // verus!
