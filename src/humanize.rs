//! Sizes and ages as the listings and statistics show them.
use vstd::prelude::*;

verus! {

/// The decimal digits of `n`.
pub open spec fn decimal(n: nat) -> Seq<char>
    decreases n,
{
    if n < 10 {
        seq![digit_char(n)]
    } else {
        decimal(n / 10) + seq![digit_char(n % 10)]
    }
}

pub open spec fn digit_char(d: nat) -> char {
    if d == 0 {
        '0'
    } else if d == 1 {
        '1'
    } else if d == 2 {
        '2'
    } else if d == 3 {
        '3'
    } else if d == 4 {
        '4'
    } else if d == 5 {
        '5'
    } else if d == 6 {
        '6'
    } else if d == 7 {
        '7'
    } else if d == 8 {
        '8'
    } else {
        '9'
    }
}

fn digit_str(d: u64) -> (r: &'static str)
    requires
        d < 10,
    ensures
        r@ == seq![digit_char(d as nat)],
{
    proof {
        reveal_strlit("0");
        reveal_strlit("1");
        reveal_strlit("2");
        reveal_strlit("3");
        reveal_strlit("4");
        reveal_strlit("5");
        reveal_strlit("6");
        reveal_strlit("7");
        reveal_strlit("8");
        reveal_strlit("9");
    }
    let r = if d == 0 {
        "0"
    } else if d == 1 {
        "1"
    } else if d == 2 {
        "2"
    } else if d == 3 {
        "3"
    } else if d == 4 {
        "4"
    } else if d == 5 {
        "5"
    } else if d == 6 {
        "6"
    } else if d == 7 {
        "7"
    } else if d == 8 {
        "8"
    } else {
        "9"
    };
    assert(r@ =~= seq![digit_char(d as nat)]);
    r
}

/// `n` written in decimal.
pub fn decimal_string(n: u64) -> (r: String)
    ensures
        r@ == decimal(n as nat),
    decreases n,
{
    if n < 10 {
        String::from_str(digit_str(n))
    } else {
        let mut s = decimal_string(n / 10);
        s.append(digit_str(n % 10));
        s
    }
}

/// The unit that a size is shown in: B, KB, MB or GB, the largest that the
/// size reaches (at most GB).
pub open spec fn size_unit(bytes: nat) -> nat {
    if bytes >= 1073741824 {
        3
    } else if bytes >= 1048576 {
        2
    } else if bytes >= 1024 {
        1
    } else {
        0
    }
}

pub open spec fn unit_divisor(u: nat) -> nat {
    if u == 3 {
        1073741824
    } else if u == 2 {
        1048576
    } else if u == 1 {
        1024
    } else {
        1
    }
}

pub open spec fn unit_name(u: nat) -> Seq<char> {
    if u == 3 {
        "GB"@
    } else if u == 2 {
        "MB"@
    } else if u == 1 {
        "KB"@
    } else {
        "B"@
    }
}

/// The size in hundredths of its unit, rounded to the nearest, ties to even.
pub open spec fn hundredths(bytes: nat) -> nat {
    let d = unit_divisor(size_unit(bytes));
    let q = (100 * bytes) / d;
    let r = (100 * bytes) % d;
    if 2 * r > d || (2 * r == d && q % 2 == 1) {
        q + 1
    } else {
        q
    }
}

/// `bytes` with two decimals in its unit, e.g. `1.50 KB`.
pub open spec fn size_text(bytes: nat) -> Seq<char> {
    let h = hundredths(bytes);
    decimal(h / 100) + "."@ + decimal((h % 100) / 10) + decimal(h % 10) + " "@ + unit_name(
        size_unit(bytes),
    )
}

/// Formats a byte count with two decimals in B, KB, MB or GB.
pub fn format_size(bytes: u64) -> (r: String)
    ensures
        r@ == size_text(bytes as nat),
{
    let unit: u64 = if bytes >= 1073741824 {
        3
    } else if bytes >= 1048576 {
        2
    } else if bytes >= 1024 {
        1
    } else {
        0
    };
    let d: u128 = if unit == 3 {
        1073741824
    } else if unit == 2 {
        1048576
    } else if unit == 1 {
        1024
    } else {
        1
    };
    let num: u128 = (bytes as u128) * 100;
    let q: u128 = num / d;
    let r: u128 = num % d;
    let h: u128 = if 2 * r > d || (2 * r == d && q % 2 == 1) {
        q + 1
    } else {
        q
    };
    assert(h <= 100 * (bytes as int) + 1) by (nonlinear_arith)
        requires
            h == q || h == q + 1,
            q == num / d,
            d >= 1,
            num == 100 * (bytes as int),
    ;
    let whole = decimal_string((h / 100) as u64);
    let tens = decimal_string(((h % 100) / 10) as u64);
    let ones = decimal_string((h % 10) as u64);
    proof {
        reveal_strlit(".");
        reveal_strlit(" ");
        reveal_strlit("GB");
        reveal_strlit("MB");
        reveal_strlit("KB");
        reveal_strlit("B");
    }
    let mut s = whole;
    s.append(".");
    s.append(tens.as_str());
    s.append(ones.as_str());
    s.append(" ");
    s.append(
        if unit == 3 {
            "GB"
        } else if unit == 2 {
            "MB"
        } else if unit == 1 {
            "KB"
        } else {
            "B"
        },
    );
    s
}

/// How long ago, in the largest whole unit: seconds under a minute, minutes
/// under an hour, hours under a day, else days.
pub open spec fn age_text(secs: nat) -> Seq<char> {
    if secs < 60 {
        decimal(secs) + " seconds ago"@
    } else if secs < 3600 {
        decimal(secs / 60) + " minutes ago"@
    } else if secs < 86400 {
        decimal(secs / 3600) + " hours ago"@
    } else {
        decimal(secs / 86400) + " days ago"@
    }
}

/// Formats an age in seconds as `N seconds/minutes/hours/days ago`.
pub fn format_age(seconds: u64) -> (r: String)
    ensures
        r@ == age_text(seconds as nat),
{
    proof {
        reveal_strlit(" seconds ago");
        reveal_strlit(" minutes ago");
        reveal_strlit(" hours ago");
        reveal_strlit(" days ago");
    }
    if seconds < 60 {
        let mut s = decimal_string(seconds);
        s.append(" seconds ago");
        s
    } else if seconds < 3600 {
        let mut s = decimal_string(seconds / 60);
        s.append(" minutes ago");
        s
    } else if seconds < 86400 {
        let mut s = decimal_string(seconds / 3600);
        s.append(" hours ago");
        s
    } else {
        let mut s = decimal_string(seconds / 86400);
        s.append(" days ago");
        s
    }
}

/// What is known of the catalog cache file.
#[derive(Debug, Clone, Copy)]
pub struct CacheInfo {
    pub exists: bool,
    pub size_bytes: u64,
    /// Seconds since the last update, if known.
    pub last_updated: Option<u64>,
    /// When the cache expires, in seconds since the Unix epoch, if known.
    pub expires_at: Option<u64>,
    pub is_valid: bool,
}

impl CacheInfo {
    /// The cache's size, as `format_size` shows it.
    pub fn size_human_readable(&self) -> (r: String)
        ensures
            r@ == size_text(self.size_bytes as nat),
    {
        format_size(self.size_bytes)
    }

    /// The time since the last update, as `format_age` shows it, or `Never`.
    pub fn last_updated_human_readable(&self) -> (r: String)
        ensures
            r@ == match self.last_updated {
                Some(s) => age_text(s as nat),
                None => "Never"@,
            },
    {
        match self.last_updated {
            Some(s) => format_age(s),
            None => {
                proof {
                    reveal_strlit("Never");
                }
                String::from_str("Never")
            },
        }
    }
}

/// A summary of the manager's installation.
#[derive(Debug, Clone)]
pub struct Stats {
    pub nvm_version: String,
    pub nvm_location: String,
    pub nvm_size: u64,
    pub installed_versions_count: usize,
    pub active_version: Option<String>,
    pub total_node_size: u64,
    pub aliases_count: usize,
    pub cache_size: u64,
    pub cache_valid: bool,
    pub cache_age: Option<u64>,
}

pub open spec fn sum_sizes(s: Seq<u64>) -> nat
    decreases s.len(),
{
    if s.len() == 0 {
        0
    } else {
        sum_sizes(s.drop_last()) + s.last() as nat
    }
}

/// The total of the cache directory's file sizes, or `None` when it does not
/// fit in 64 bits.
pub fn get_cache_total_size(file_sizes: &[u64]) -> (r: Option<u64>)
    ensures
        match r {
            Some(t) => t as nat == sum_sizes(file_sizes@),
            None => sum_sizes(file_sizes@) > u64::MAX,
        },
{
    let mut total: u64 = 0;
    let mut i: usize = 0;
    while i < file_sizes.len()
        invariant
            i <= file_sizes@.len(),
            total as nat == sum_sizes(file_sizes@.take(i as int)),
        decreases file_sizes@.len() - i,
    {
        proof {
            assert(file_sizes@.take(i + 1).drop_last() =~= file_sizes@.take(i as int));
        }
        let s = file_sizes[i];
        if total > u64::MAX - s {
            proof {
                lemma_sum_prefix_le(file_sizes@, i + 1);
            }
            return None;
        }
        total = total + s;
        i = i + 1;
    }
    proof {
        assert(file_sizes@.take(i as int) =~= file_sizes@);
    }
    Some(total)
}

proof fn lemma_sum_prefix_le(s: Seq<u64>, i: int)
    requires
        0 <= i <= s.len(),
    ensures
        sum_sizes(s.take(i)) <= sum_sizes(s),
    decreases s.len() - i,
{
    if i < s.len() {
        assert(s.drop_last().take(i) =~= s.take(i));
        lemma_sum_prefix_le(s.drop_last(), i);
    } else {
        assert(s.take(i) =~= s);
    }
}

} // verus!
