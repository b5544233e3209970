//! Lookup of an archive's digest in a release's `SHASUMS256.txt`, whose
//! lines read `<digest> <file name>`.
use vstd::prelude::*;

use crate::cleanup::first_line;
use crate::text::{is_space, is_space_char, lemma_trim_start_skip, str_eq, trim_start};

verus! {

/// The leading run of non-space characters.
pub open spec fn take_word(s: Seq<char>) -> Seq<char>
    decreases s.len(),
{
    if s.len() > 0 && !is_space(s[0]) {
        seq![s[0]] + take_word(s.drop_first())
    } else {
        Seq::empty()
    }
}

/// The first white-space separated word of a line (empty when it has none).
pub open spec fn first_word(s: Seq<char>) -> Seq<char> {
    take_word(trim_start(s))
}

/// The second white-space separated word of a line (empty when it has
/// fewer than two).
pub open spec fn second_word(s: Seq<char>) -> Seq<char> {
    first_word(trim_start(s).skip(first_word(s).len() as int))
}

/// The digest listed for `file`: from the first line whose second word is
/// the file's name, the line's first word.
pub open spec fn listed_digest(text: Seq<char>, file: Seq<char>) -> Option<Seq<char>>
    decreases text.len(),
{
    let line = first_line(text);
    if file.len() > 0 && second_word(line) == file {
        Some(first_word(line))
    } else if line.len() < text.len() {
        listed_digest(text.skip(line.len() + 1int), file)
    } else {
        None
    }
}

pub proof fn lemma_next_line(text: Seq<char>, start: int, e: int)
    requires
        0 <= start <= e <= text.len(),
        forall|j: int| start <= j < e ==> text[j] != '\n',
        e == text.len() || text[e] == '\n',
    ensures
        first_line(text.skip(start)) == text.subrange(start, e),
        e < text.len() ==> text.skip(start).skip(e - start + 1) == text.skip(e + 1),
{
    let rest = text.skip(start);
    let k = e - start;
    assert(forall|j: int| 0 <= j < k ==> rest[j] == text[start + j]);
    if e < text.len() {
        assert(rest[k] == '\n');
        let q = choose|q: int|
            0 <= q < rest.len() && rest[q] == '\n' && forall|j: int| 0 <= j < q ==> rest[j] != '\n';
        if q < k {
            assert(rest[q] == text[start + q]);
        } else if q > k {
            assert(rest[k] == '\n');
        }
        assert(first_line(rest) == rest.take(k));
        assert(rest.skip(k + 1) =~= text.skip(e + 1));
    } else {
        assert(forall|j: int| 0 <= j < rest.len() ==> rest[j] != '\n');
        assert(first_line(rest) == rest);
        assert(rest.take(k) =~= rest);
    }
    assert(rest.take(k) =~= text.subrange(start, e));
}

proof fn lemma_trim_start_at(s: Seq<char>, a: int)
    requires
        0 <= a <= s.len(),
        forall|j: int| 0 <= j < a ==> is_space(#[trigger] s[j]),
        a == s.len() || !is_space(s[a]),
    ensures
        trim_start(s) == s.skip(a),
{
    lemma_trim_start_skip(s, a);
    if a < s.len() {
        assert(s.skip(a)[0] == s[a]);
    }
}

proof fn lemma_take_word_at(s: Seq<char>, b: int)
    requires
        0 <= b <= s.len(),
        forall|j: int| 0 <= j < b ==> !is_space(#[trigger] s[j]),
        b == s.len() || is_space(s[b]),
    ensures
        take_word(s) == s.take(b),
    decreases b,
{
    if b > 0 {
        assert forall|j: int| 0 <= j < b - 1 implies !is_space(#[trigger] s.drop_first()[j]) by {
            assert(s.drop_first()[j] == s[j + 1]);
        }
        if b < s.len() {
            assert(s.drop_first()[b - 1] == s[b]);
        }
        lemma_take_word_at(s.drop_first(), b - 1);
        assert(s.take(b) =~= seq![s[0]] + s.drop_first().take(b - 1));
    } else {
        if s.len() > 0 {
            assert(is_space(s[0]));
        }
        assert(s.take(0) =~= Seq::<char>::empty());
    }
}

fn skip_spaces(s: &str, from: usize) -> (r: usize)
    requires
        from <= s@.len(),
    ensures
        from <= r <= s@.len(),
        forall|j: int| from <= j < r ==> is_space(#[trigger] s@[j]),
        r == s@.len() || !is_space(s@[r as int]),
{
    let n = s.unicode_len();
    let mut i = from;
    while i < n && is_space_char(s.get_char(i))
        invariant
            from <= i <= n,
            n == s@.len(),
            forall|j: int| from <= j < i ==> is_space(#[trigger] s@[j]),
        decreases n - i,
    {
        i = i + 1;
    }
    i
}

fn skip_word(s: &str, from: usize) -> (r: usize)
    requires
        from <= s@.len(),
    ensures
        from <= r <= s@.len(),
        forall|j: int| from <= j < r ==> !is_space(#[trigger] s@[j]),
        r == s@.len() || is_space(s@[r as int]),
{
    let n = s.unicode_len();
    let mut i = from;
    while i < n && !is_space_char(s.get_char(i))
        invariant
            from <= i <= n,
            n == s@.len(),
            forall|j: int| from <= j < i ==> !is_space(#[trigger] s@[j]),
        decreases n - i,
    {
        i = i + 1;
    }
    i
}

/// The first two words of a line.
pub fn first_two_words(line: &str) -> (r: (String, String))
    ensures
        r.0@ == first_word(line@),
        r.1@ == second_word(line@),
{
    let ghost s = line@;
    let a = skip_spaces(line, 0);
    let b = skip_word(line, a);
    let c = skip_spaces(line, b);
    let d = skip_word(line, c);
    proof {
        lemma_trim_start_at(s, a as int);
        let t = s.skip(a as int);
        assert forall|j: int| 0 <= j < b - a implies !is_space(#[trigger] t[j]) by {
            assert(t[j] == s[a + j]);
        }
        if b < s.len() {
            assert(t[b - a] == s[b as int]);
        }
        lemma_take_word_at(t, b - a);
        assert(t.take(b - a) =~= s.subrange(a as int, b as int));
        assert(first_word(s) == s.subrange(a as int, b as int));
        let u = t.skip(b - a);
        assert(u =~= s.skip(b as int));
        assert forall|j: int| 0 <= j < c - b implies is_space(#[trigger] u[j]) by {
            assert(u[j] == s[b + j]);
        }
        if c < s.len() {
            assert(u[c - b] == s[c as int]);
        }
        lemma_trim_start_at(u, c - b);
        let w = u.skip(c - b);
        assert(w =~= s.skip(c as int));
        assert forall|j: int| 0 <= j < d - c implies !is_space(#[trigger] w[j]) by {
            assert(w[j] == s[c + j]);
        }
        if d < s.len() {
            assert(w[d - c] == s[d as int]);
        }
        lemma_take_word_at(w, d - c);
        assert(w.take(d - c) =~= s.subrange(c as int, d as int));
    }
    (String::from_str(line.substring_char(a, b)), String::from_str(line.substring_char(c, d)))
}

/// The digest that the checksum list gives for `file`, if it lists it.
pub fn find_checksum(text: &str, file: &str) -> (r: Option<String>)
    ensures
        match r {
            Some(d) => listed_digest(text@, file@) == Some(d@),
            None => listed_digest(text@, file@) is None,
        },
{
    let n = text.unicode_len();
    let has_name = file.unicode_len() > 0;
    let mut start: usize = 0;
    proof {
        assert(text@.skip(0) =~= text@);
    }
    loop
        invariant
            start <= n,
            n == text@.len(),
            has_name == (file@.len() > 0),
            listed_digest(text@.skip(start as int), file@) == listed_digest(text@, file@),
        decreases n - start,
    {
        let ghost rest = text@.skip(start as int);
        let mut e = start;
        while e < n && text.get_char(e) != '\n'
            invariant
                start <= e <= n,
                n == text@.len(),
                forall|j: int| start <= j < e ==> text@[j] != '\n',
            decreases n - e,
        {
            e = e + 1;
        }
        let line = text.substring_char(start, e);
        proof {
            lemma_next_line(text@, start as int, e as int);
        }
        let (w1, w2) = first_two_words(line);
        if has_name && str_eq(w2.as_str(), file) {
            return Some(w1);
        }
        if e >= n {
            return None;
        }
        start = e + 1;
    }
}

} // verus!
