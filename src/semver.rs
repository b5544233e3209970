//! Version strings: normalisation, the `v<major>.<minor>.<patch>` grammar and
//! the numeric ordering used for display.
use vstd::prelude::*;

verus! {

pub open spec fn is_digit(c: char) -> bool {
    '0' <= c && c <= '9'
}

pub open spec fn starts_with_v(s: Seq<char>) -> bool {
    s.len() > 0 && s[0] == 'v'
}

/// The string with a leading `v`, added when it is missing.
pub open spec fn normalized(s: Seq<char>) -> Seq<char> {
    if starts_with_v(s) {
        s
    } else {
        seq!['v'] + s
    }
}

/// The string without its leading `v`, if it has one.
pub open spec fn without_v(s: Seq<char>) -> Seq<char> {
    if starts_with_v(s) {
        s.drop_first()
    } else {
        s
    }
}

/// `v` followed by a digit: the shape of an installed version's directory and
/// of anything that is taken as a version rather than an alias name.
pub open spec fn looks_like_version(s: Seq<char>) -> bool {
    s.len() >= 2 && s[0] == 'v' && is_digit(s[1])
}

/// The fields of `s` between dots, in order; `s` without a dot is one field.
pub open spec fn split_fields(s: Seq<char>) -> Seq<Seq<char>>
    decreases s.len(),
{
    if s.len() == 0 {
        seq![Seq::empty()]
    } else {
        let front = split_fields(s.drop_last());
        if s.last() == '.' {
            front.push(Seq::empty())
        } else {
            front.update(front.len() - 1, front.last().push(s.last()))
        }
    }
}

pub open spec fn all_digits(f: Seq<char>) -> bool {
    forall|i: int| 0 <= i < f.len() ==> is_digit(#[trigger] f[i])
}

pub open spec fn is_numeric_field(f: Seq<char>) -> bool {
    f.len() > 0 && all_digits(f)
}

pub open spec fn digit_value(c: char) -> nat {
    ((c as u32) - ('0' as u32)) as nat
}

/// The decimal value of a string of digits.
pub open spec fn digits_value(f: Seq<char>) -> nat
    decreases f.len(),
{
    if f.len() == 0 {
        0
    } else {
        10 * digits_value(f.drop_last()) + digit_value(f.last())
    }
}

/// A field's number: its decimal value when it is a number that fits in 32
/// bits, else 0.
pub open spec fn field_value(f: Seq<char>) -> nat {
    if is_numeric_field(f) && digits_value(f) <= u32::MAX {
        digits_value(f)
    } else {
        0
    }
}

/// `v?<digits>.<digits>.<digits>`: a fully qualified version.
pub open spec fn is_full_version(s: Seq<char>) -> bool {
    let f = split_fields(without_v(s));
    &&& f.len() == 3
    &&& is_numeric_field(f[0])
    &&& is_numeric_field(f[1])
    &&& is_numeric_field(f[2])
}

/// Major, minor and patch numbers of a version string.
#[derive(Clone, Copy, Debug, PartialEq, Eq)]
pub struct VersionKey {
    pub major: u32,
    pub minor: u32,
    pub patch: u32,
}

pub open spec fn field_at(f: Seq<Seq<char>>, i: int) -> nat {
    if i < f.len() {
        field_value(f[i])
    } else {
        0
    }
}

/// The numeric key of a version string: its first three fields after an
/// optional `v`, where a missing or non-numeric field counts as 0.
pub open spec fn version_key(s: Seq<char>) -> VersionKey {
    let f = split_fields(without_v(s));
    VersionKey {
        major: field_at(f, 0) as u32,
        minor: field_at(f, 1) as u32,
        patch: field_at(f, 2) as u32,
    }
}

/// Strict order of keys: major first, then minor, then patch.
pub open spec fn key_lt(a: VersionKey, b: VersionKey) -> bool {
    a.major < b.major || (a.major == b.major && (a.minor < b.minor || (a.minor == b.minor
        && a.patch < b.patch)))
}

pub open spec fn key_ge(a: VersionKey, b: VersionKey) -> bool {
    !key_lt(a, b)
}

/// Newest first: no entry has a smaller key than an entry after it.
pub open spec fn sorted_descending(s: Seq<String>) -> bool {
    forall|i: int, j: int|
        0 <= i < j < s.len() ==> key_ge(version_key(#[trigger] s[i]@), version_key(#[trigger] s[j]@))
}

pub proof fn lemma_split_fields_nonempty(s: Seq<char>)
    ensures
        split_fields(s).len() >= 1,
    decreases s.len(),
{
    if s.len() > 0 {
        lemma_split_fields_nonempty(s.drop_last());
    }
}

proof fn lemma_field_value_bound(f: Seq<char>)
    ensures
        field_value(f) <= u32::MAX,
{
}

/// Adds a leading `v` to a version when it has none.
pub fn normalize_version(version: &str) -> (r: String)
    ensures
        r@ == normalized(version@),
{
    let n = version.unicode_len();
    if n > 0 && version.get_char(0) == 'v' {
        String::from_str(version)
    } else {
        let mut r = String::from_str("v");
        proof {
            reveal_strlit("v");
        }
        r.append(version);
        r
    }
}

/// The version without its leading `v`.
pub fn version_number(version: &str) -> (r: &str)
    ensures
        r@ == without_v(version@),
{
    let n = version.unicode_len();
    if n > 0 && version.get_char(0) == 'v' {
        version.substring_char(1, n)
    } else {
        version
    }
}

/// Whether the string is `v` followed by a digit.
pub fn looks_like_version_name(s: &str) -> (r: bool)
    ensures
        r == looks_like_version(s@),
{
    let n = s.unicode_len();
    if n < 2 {
        return false;
    }
    let c = s.get_char(1);
    s.get_char(0) == 'v' && '0' <= c && c <= '9'
}

/// Reads the first three dot-separated fields of a version string.
pub fn version_key_of(version: &str) -> (k: VersionKey)
    ensures
        k == version_key(version@),
{
    let n = version.unicode_len();
    let start: usize = if n > 0 && version.get_char(0) == 'v' {
        1
    } else {
        0
    };
    let ghost body = without_v(version@);
    assert(body =~= version@.subrange(start as int, n as int));
    let mut major: u32 = 0;
    let mut minor: u32 = 0;
    let mut patch: u32 = 0;
    let mut k: usize = 0;
    let mut cur: u64 = 0;
    let mut cur_len: usize = 0;
    let mut cur_digits: bool = true;
    let mut over: bool = false;
    let mut i: usize = start;
    proof {
        assert(body.take(0) =~= Seq::<char>::empty());
    }
    while i < n
        invariant
            start <= i <= n,
            n == version@.len(),
            body =~= version@.subrange(start as int, n as int),
            split_fields(body.take(i - start)).len() == k + 1,
            k >= 1 ==> major == field_value(split_fields(body.take(i - start))[0]),
            k >= 2 ==> minor == field_value(split_fields(body.take(i - start))[1]),
            k >= 3 ==> patch == field_value(split_fields(body.take(i - start))[2]),
            cur_len == split_fields(body.take(i - start))[k as int].len(),
            cur_digits == all_digits(split_fields(body.take(i - start))[k as int]),
            cur_digits && !over ==> cur == digits_value(split_fields(body.take(i - start))[k as int]),
            cur <= u32::MAX,
            cur_digits ==> (over <==> digits_value(split_fields(body.take(i - start))[k as int])
                > u32::MAX),
            k <= i,
            cur_len <= i,
            k < 2 ==> minor == 0,
            k < 3 ==> patch == 0,
        decreases n - i,
    {
        let c = version.get_char(i);
        let ghost pre = body.take(i - start);
        let ghost post = body.take(i + 1 - start);
        proof {
            assert(post.drop_last() =~= pre);
            assert(post.last() == c);
            lemma_split_fields_nonempty(pre);
        }
        if c == '.' {
            let v: u32 = if cur_digits && cur_len > 0 && !over {
                cur as u32
            } else {
                0
            };
            if k == 0 {
                major = v;
            } else if k == 1 {
                minor = v;
            } else if k == 2 {
                patch = v;
            }
            k = k + 1;
            cur = 0;
            cur_len = 0;
            cur_digits = true;
            over = false;
            proof {
                let fp = split_fields(post);
                assert(fp[k as int] =~= Seq::<char>::empty());
            }
        } else {
            let ghost f = split_fields(pre)[k as int];
            let ghost g = f.push(c);
            proof {
                assert(split_fields(post)[k as int] == g);
                assert(g.drop_last() =~= f);
                assert(all_digits(g) == (all_digits(f) && is_digit(c))) by {
                    if all_digits(f) && is_digit(c) {
                        assert forall|j: int| 0 <= j < g.len() implies is_digit(#[trigger] g[j]) by {
                            if j < f.len() {
                                assert(g[j] == f[j]);
                            }
                        }
                    }
                    if all_digits(g) {
                        assert forall|j: int| 0 <= j < f.len() implies is_digit(#[trigger] f[j]) by {
                            assert(g[j] == f[j]);
                        }
                        assert(g[g.len() - 1] == c);
                    }
                }
                assert(digits_value(g) == 10 * digits_value(f) + digit_value(c));
            }
            if cur_digits && '0' <= c && c <= '9' {
                if !over {
                    let d: u64 = (c as u32 - '0' as u32) as u64;
                    let next: u64 = cur * 10 + d;
                    if next > 0xFFFF_FFFF {
                        over = true;
                    } else {
                        cur = next;
                    }
                }
            } else {
                cur_digits = false;
            }
            cur_len = cur_len + 1;
        }
        i = i + 1;
    }
    let v: u32 = if cur_digits && cur_len > 0 && !over {
        cur as u32
    } else {
        0
    };
    if k == 0 {
        major = v;
    } else if k == 1 {
        minor = v;
    } else if k == 2 {
        patch = v;
    }
    proof {
        assert(body.take(n - start) =~= body);
        let f = split_fields(body);
        assert(v == field_value(f[k as int]));
        lemma_field_value_bound(f[0]);
        if f.len() > 1 {
            lemma_field_value_bound(f[1]);
        }
        if f.len() > 2 {
            lemma_field_value_bound(f[2]);
        }
        assert(major as nat == field_at(f, 0));
        assert(minor as nat == field_at(f, 1));
        assert(patch as nat == field_at(f, 2));
    }
    VersionKey { major, minor, patch }
}

/// Whether the string is `v?<digits>.<digits>.<digits>`.
pub fn is_full_version_str(s: &str) -> (r: bool)
    ensures
        r == is_full_version(s@),
{
    let n = s.unicode_len();
    let start: usize = if n > 0 && s.get_char(0) == 'v' {
        1
    } else {
        0
    };
    let ghost body = without_v(s@);
    assert(body =~= s@.subrange(start as int, n as int));
    let mut k: usize = 0;
    let mut done_ok: bool = true;
    let mut cur_len: usize = 0;
    let mut cur_digits: bool = true;
    let mut i: usize = start;
    proof {
        assert(body.take(0) =~= Seq::<char>::empty());
    }
    while i < n
        invariant
            start <= i <= n,
            n == s@.len(),
            body =~= s@.subrange(start as int, n as int),
            split_fields(body.take(i - start)).len() == k + 1,
            done_ok == (forall|j: int|
                0 <= j < k ==> is_numeric_field(#[trigger] split_fields(body.take(i - start))[j])),
            cur_len == split_fields(body.take(i - start))[k as int].len(),
            cur_digits == all_digits(split_fields(body.take(i - start))[k as int]),
            k <= i,
            cur_len <= i,
        decreases n - i,
    {
        let c = s.get_char(i);
        let ghost pre = body.take(i - start);
        let ghost post = body.take(i + 1 - start);
        proof {
            assert(post.drop_last() =~= pre);
            assert(post.last() == c);
            lemma_split_fields_nonempty(pre);
        }
        if c == '.' {
            let ghost fpre = split_fields(pre);
            let ghost fpost = split_fields(post);
            proof {
                assert(fpost == fpre.push(Seq::<char>::empty()));
                assert(forall|j: int| 0 <= j <= k ==> fpost[j] == fpre[j]);
            }
            done_ok = done_ok && cur_digits && cur_len > 0;
            k = k + 1;
            cur_len = 0;
            cur_digits = true;
            proof {
                assert(fpost[k as int] =~= Seq::<char>::empty());
            }
        } else {
            let ghost fpre = split_fields(pre);
            let ghost fpost = split_fields(post);
            let ghost f = fpre[k as int];
            let ghost g = f.push(c);
            proof {
                assert(fpost[k as int] == g);
                assert(forall|j: int| 0 <= j < k ==> fpost[j] == fpre[j]);
                assert(all_digits(g) == (all_digits(f) && is_digit(c))) by {
                    if all_digits(f) && is_digit(c) {
                        assert forall|j: int| 0 <= j < g.len() implies is_digit(#[trigger] g[j]) by {
                            if j < f.len() {
                                assert(g[j] == f[j]);
                            }
                        }
                    }
                    if all_digits(g) {
                        assert forall|j: int| 0 <= j < f.len() implies is_digit(#[trigger] f[j]) by {
                            assert(g[j] == f[j]);
                        }
                        assert(g[g.len() - 1] == c);
                    }
                }
            }
            cur_digits = cur_digits && '0' <= c && c <= '9';
            cur_len = cur_len + 1;
        }
        i = i + 1;
    }
    proof {
        assert(body.take(n - start) =~= body);
    }
    k == 2 && done_ok && cur_digits && cur_len > 0
}

/// Sorts versions newest first by their numeric key; entries with equal keys
/// keep no particular order.
pub fn sort_versions(versions: &mut Vec<String>)
    ensures
        final(versions)@.to_multiset() == old(versions)@.to_multiset(),
        sorted_descending(final(versions)@),
{
    broadcast use vstd::seq_lib::group_to_multiset_ensures, vstd::multiset::group_multiset_axioms;

    let ghost orig = versions@;
    let mut rest: Vec<String> = Vec::new();
    std::mem::swap(versions, &mut rest);
    let mut sorted: Vec<String> = Vec::new();
    let mut keys: Vec<VersionKey> = Vec::new();
    while rest.len() > 0
        invariant
            keys@.len() == sorted@.len(),
            forall|j: int| 0 <= j < keys@.len() ==> #[trigger] keys@[j] == version_key(sorted@[j]@),
            sorted_descending(sorted@),
            rest@.to_multiset().add(sorted@.to_multiset()) == orig.to_multiset(),
        decreases rest@.len(),
    {
        let ghost before = rest@;
        let x = rest.pop().unwrap();
        proof {
            assert(before =~= rest@.push(x));
        }
        let kx = version_key_of(x.as_str());
        let mut p: usize = 0;
        while p < keys.len() && !key_less(keys[p], kx)
            invariant
                p <= keys@.len(),
                forall|j: int| 0 <= j < p ==> key_ge(#[trigger] keys@[j], kx),
            decreases keys@.len() - p,
        {
            p = p + 1;
        }
        let ghost old_sorted = sorted@;
        let ghost old_keys = keys@;
        sorted.insert(p, x);
        keys.insert(p, kx);
        proof {
            assert forall|j: int| 0 <= j < keys@.len() implies #[trigger] keys@[j] == version_key(
                sorted@[j]@,
            ) by {
                if j < p {
                    assert(keys@[j] == old_keys[j]);
                    assert(sorted@[j] == old_sorted[j]);
                } else if j > p {
                    assert(keys@[j] == old_keys[j - 1]);
                    assert(sorted@[j] == old_sorted[j - 1]);
                }
            }
            assert forall|a: int, b: int| 0 <= a < b < sorted@.len() implies key_ge(
                version_key(#[trigger] sorted@[a]@),
                version_key(#[trigger] sorted@[b]@),
            ) by {
                assert(keys@[a] == version_key(sorted@[a]@));
                assert(keys@[b] == version_key(sorted@[b]@));
                if b < p {
                    assert(key_ge(version_key(old_sorted[a]@), version_key(old_sorted[b]@)));
                } else if a > p {
                    assert(key_ge(version_key(old_sorted[a - 1]@), version_key(old_sorted[b - 1]@)));
                } else if a == p {
                    if p < old_keys.len() {
                        assert(key_lt(old_keys[p as int], kx));
                        assert(old_keys[p as int] == version_key(old_sorted[p as int]@));
                        if b - 1 > p {
                            assert(key_ge(
                                version_key(old_sorted[p as int]@),
                                version_key(old_sorted[b - 1]@),
                            ));
                        }
                    }
                } else if b == p {
                    assert(key_ge(old_keys[a], kx));
                } else {
                    assert(a < p && p < b);
                    assert(key_ge(old_keys[a], kx));
                    assert(key_lt(old_keys[p as int], kx));
                    assert(old_keys[p as int] == version_key(old_sorted[p as int]@));
                    if b - 1 > p {
                        assert(key_ge(
                            version_key(old_sorted[p as int]@),
                            version_key(old_sorted[b - 1]@),
                        ));
                    }
                }
            }
            vstd::seq_lib::to_multiset_build(rest@, x);
            vstd::seq_lib::to_multiset_insert(old_sorted, p as int, x);
            assert(before.to_multiset() == rest@.to_multiset().insert(x));
            assert(sorted@.to_multiset() == old_sorted.to_multiset().insert(x));
            assert(rest@.to_multiset().add(sorted@.to_multiset()) =~= before.to_multiset().add(
                old_sorted.to_multiset(),
            ));
        }
    }
    proof {
        assert(rest@.to_multiset() =~= vstd::multiset::Multiset::empty());
    }
    *versions = sorted;
}

/// Whether `a` comes before `b` in version order.
pub fn key_less(a: VersionKey, b: VersionKey) -> (r: bool)
    ensures
        r == key_lt(a, b),
{
    a.major < b.major || (a.major == b.major && (a.minor < b.minor || (a.minor == b.minor
        && a.patch < b.patch)))
}

} // verus!
