//! The alias store's file: a JSON object of name to target.
use vstd::prelude::*;

use crate::aliases::{is_listing, sorted_by_name, Aliases};
use crate::text::{lemma_str_lt_irreflexive, lemma_trimmed_nonempty, str_lt, trim_text, trimmed};

verus! {

#[verifier::external_type_specification]
#[verifier::external_body]
pub struct ExJsonError(serde_json::Error);

/// The (name, target) pairs of a JSON object whose values are all strings,
/// in name order; `None` when the text is not such an object.
pub uninterp spec fn json_string_map(text: Seq<char>) -> Option<Seq<(Seq<char>, Seq<char>)>>;

/// The pretty-printed JSON object of the given (name, target) pairs.
pub uninterp spec fn json_text_of(pairs: Seq<(Seq<char>, Seq<char>)>) -> Seq<char>;

pub open spec fn pair_views(v: Seq<(String, String)>) -> Seq<(Seq<char>, Seq<char>)> {
    v.map_values(|p: (String, String)| (p.0@, p.1@))
}

/// Relies on `serde_json::from_str` into a `BTreeMap<String, String>`: it
/// accepts exactly a JSON object with string values, and the map hands its
/// entries out in key order.
#[verifier::external_body]
fn parse_string_map(text: &str) -> (r: Result<Vec<(String, String)>, serde_json::Error>)
    ensures
        match r {
            Ok(v) => json_string_map(text@) == Some(pair_views(v@)),
            Err(_) => json_string_map(text@) is None,
        },
{
    serde_json::from_str::<std::collections::BTreeMap<String, String>>(text).map(
        |m| m.into_iter().collect(),
    )
}

/// Relies on `serde_json::to_string_pretty` of a `BTreeMap<String, String>`:
/// the text depends on the pairs alone, a map with string keys always
/// serializes, the text is a JSON object (it opens with `{`), and
/// `serde_json::from_str` reads it back as the same map. The pairs come with
/// distinct names in name order, which the map keeps as they are.
#[verifier::external_body]
fn print_string_map(pairs: &Vec<(String, String)>) -> (r: Result<String, serde_json::Error>)
    requires
        sorted_by_name(pairs@),
    ensures
        r is Ok,
        r->Ok_0@ == json_text_of(pair_views(pairs@)),
        json_string_map(r->Ok_0@) == Some(pair_views(pairs@)),
        r->Ok_0@.len() > 0 && r->Ok_0@[0] == '{',
{
    serde_json::to_string_pretty(
        &pairs.iter().cloned().collect::<std::collections::BTreeMap<String, String>>(),
    )
}

/// The alias file could not be read as aliases, or the store could not be
/// written out.
#[derive(Debug, Clone, Copy, PartialEq, Eq, Structural)]
pub enum AliasFileError {
    Malformed,
    Unwritable,
}

/// The mapping that a list of pairs gives when later pairs override earlier
/// ones.
pub open spec fn pairs_map(p: Seq<(Seq<char>, Seq<char>)>) -> Map<Seq<char>, Seq<char>>
    decreases p.len(),
{
    if p.len() == 0 {
        Map::empty()
    } else {
        pairs_map(p.drop_last()).insert(p.last().0, p.last().1)
    }
}

/// What reading a file's text gives: an empty store for blank text, the
/// object's pairs for a JSON object of strings, else an error.
pub open spec fn parsed_aliases(text: Seq<char>) -> Option<Map<Seq<char>, Seq<char>>> {
    if trimmed(text).len() == 0 {
        Some(Map::empty())
    } else {
        match json_string_map(text) {
            Some(p) => Some(pairs_map(p)),
            None => None,
        }
    }
}

proof fn lemma_pairs_map_lookup(p: Seq<(Seq<char>, Seq<char>)>)
    requires
        forall|i: int, j: int| 0 <= i < j < p.len() ==> #[trigger] p[i].0 != #[trigger] p[j].0,
    ensures
        forall|i: int|
            0 <= i < p.len() ==> pairs_map(p).contains_key(#[trigger] p[i].0) && pairs_map(p)[p[i].0]
                == p[i].1,
        forall|k: Seq<char>| #[trigger]
            pairs_map(p).contains_key(k) ==> exists|i: int| 0 <= i < p.len() && p[i].0 == k,
    decreases p.len(),
{
    if p.len() > 0 {
        let q = p.drop_last();
        assert forall|i: int, j: int| 0 <= i < j < q.len() implies #[trigger] q[i].0 != #[trigger] q[j].0 by {
            assert(q[i] == p[i] && q[j] == p[j]);
        }
        lemma_pairs_map_lookup(q);
        assert forall|i: int| 0 <= i < p.len() implies pairs_map(p).contains_key(#[trigger] p[i].0)
            && pairs_map(p)[p[i].0] == p[i].1 by {
            if i < p.len() - 1 {
                assert(q[i] == p[i]);
                assert(p[i].0 != p[p.len() - 1].0);
            }
        }
        assert forall|k: Seq<char>| #[trigger] pairs_map(p).contains_key(k) implies exists|i: int|
            0 <= i < p.len() && p[i].0 == k by {
            if k != p.last().0 {
                assert(pairs_map(q).contains_key(k));
                assert(exists|i: int| 0 <= i < q.len() && q[i].0 == k);
                let i = choose|i: int| 0 <= i < q.len() && q[i].0 == k;
                assert(p[i] == q[i]);
                assert(p[i].0 == k);
            } else {
                assert(p[p.len() - 1].0 == k);
            }
        }
    }
}

/// A listing of a store, read as pairs, gives the store back.
proof fn lemma_listing_pairs_map(m: Map<Seq<char>, Seq<char>>, l: Seq<(String, String)>)
    requires
        is_listing(m, l),
    ensures
        pairs_map(pair_views(l)) == m,
{
    let p = pair_views(l);
    assert forall|i: int, j: int| 0 <= i < j < p.len() implies #[trigger] p[i].0 != #[trigger] p[j].0 by {
        assert(str_lt(l[i].0@, l[j].0@));
        if p[i].0 == p[j].0 {
            lemma_str_lt_irreflexive(l[i].0@);
        }
    }
    lemma_pairs_map_lookup(p);
    let pm = pairs_map(p);
    assert forall|k: Seq<char>| #[trigger] pm.contains_key(k) == m.contains_key(k) by {
        if pm.contains_key(k) {
            let i = choose|i: int| 0 <= i < p.len() && p[i].0 == k;
            assert(m.contains_key(l[i].0@));
        }
        if m.contains_key(k) {
            let i = choose|i: int| 0 <= i < l.len() && #[trigger] l[i].0@ == k;
            assert(p[i].0 == k);
        }
    }
    assert forall|k: Seq<char>| #[trigger] pm.contains_key(k) implies pm[k] == m[k] by {
        let i = choose|i: int| 0 <= i < p.len() && p[i].0 == k;
        assert(m[l[i].0@] == l[i].1@);
    }
    assert(pm =~= m);
}

impl Aliases {
    /// Where the alias file lives.
    pub fn get_aliases_file_path(config: &crate::config::Config) -> (r: String)
        ensures
            r@ == crate::config::path_join(
                config.nvm_dir@,
                "aliases.json"@,
                crate::config::separator(config.os@),
            ),
    {
        config.aliases_file()
    }

    /// Reads the store from the alias file's text. Blank text is an empty
    /// store; text that is not a JSON object of strings is an error, never
    /// silently dropped.
    pub fn from_json(text: &str) -> (r: Result<Aliases, AliasFileError>)
        ensures
            match parsed_aliases(text@) {
                Some(m) => r is Ok && r->Ok_0.wf() && r->Ok_0@ == m,
                None => r == Err::<Aliases, AliasFileError>(AliasFileError::Malformed),
            },
    {
        let t = trim_text(text);
        if t.unicode_len() == 0 {
            return Ok(Aliases::new());
        }
        match parse_string_map(text) {
            Ok(pairs) => {
                let ghost pv = pair_views(pairs@);
                let mut store = Aliases::new();
                let mut rest = pairs;
                let ghost mut i: int = 0;
                while rest.len() > 0
                    invariant
                        0 <= i <= pv.len(),
                        store.wf(),
                        i + rest@.len() == pv.len(),
                        pair_views(rest@) == pv.skip(i),
                        store@ == pairs_map(pv.take(i)),
                    decreases rest@.len(),
                {
                    let ghost before = rest@;
                    let (name, target) = rest.remove(0);
                    proof {
                        assert(pair_views(before)[0] == (name@, target@));
                        assert(pv[i] == (name@, target@));
                        assert(pv.take(i + 1).drop_last() =~= pv.take(i));
                        assert forall|j: int| 0 <= j < rest@.len() implies #[trigger] pair_views(
                            rest@,
                        )[j] == pv.skip(i + 1)[j] by {
                            assert(rest@[j] == before[j + 1]);
                            assert(pair_views(before)[j + 1] == pv.skip(i)[j + 1]);
                        }
                        assert(pair_views(rest@) =~= pv.skip(i + 1));
                    }
                    store.set(name, target);
                    proof {
                        i = i + 1;
                    }
                }
                proof {
                    assert(pv.take(i) =~= pv);
                }
                Ok(store)
            },
            Err(_) => Err(AliasFileError::Malformed),
        }
    }

    /// The store as the alias file's text: a JSON object in name order.
    pub fn to_json(&self) -> (r: Result<String, AliasFileError>)
        requires
            self.wf(),
        ensures
            r is Ok,
            exists|l: Seq<(String, String)>|
                is_listing(self@, l) && r->Ok_0@ == json_text_of(pair_views(l)),
            parsed_aliases(r->Ok_0@) == Some(self@),
    {
        let pairs = self.list();
        match print_string_map(&pairs) {
            Ok(s) => {
                proof {
                    lemma_trimmed_nonempty(s@);
                    lemma_listing_pairs_map(self@, pairs@);
                }
                Ok(s)
            },
            Err(_) => Err(AliasFileError::Unwritable),
        }
    }
}

} // verus!
