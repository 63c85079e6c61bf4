//! Event severities and the configured severity threshold.
//!
//! The configuration supplies the threshold as a string; an unparsable value
//! is a fatal startup error.  The accepted spellings are the decimal ranks
//! zero through five (an optional leading plus sign included), the severity
//! names in any ASCII case, `off`, and the empty string, which selects the
//! error threshold.

use vstd::prelude::*;

verus! {

/// The severity of one emitted event, least to most severe.
#[derive(Clone, Copy, Debug, PartialEq, Eq, Structural)]
pub enum Level {
    Trace,
    Debug,
    Info,
    Warn,
    Error,
}

/// The minimum-severity threshold an event must meet to be emitted.
/// `Off` admits nothing; `Trace` admits everything.
#[derive(Clone, Copy, Debug, PartialEq, Eq, Structural)]
pub enum Threshold {
    Off,
    Error,
    Warn,
    Info,
    Debug,
    Trace,
}

/// How verbose a level is: the error level is rank one, trace rank five.
pub open spec fn level_rank(l: Level) -> int {
    match l {
        Level::Error => 1,
        Level::Warn => 2,
        Level::Info => 3,
        Level::Debug => 4,
        Level::Trace => 5,
    }
}

/// How much a threshold admits: rank zero admits nothing.
pub open spec fn threshold_rank(t: Threshold) -> int {
    match t {
        Threshold::Off => 0,
        Threshold::Error => 1,
        Threshold::Warn => 2,
        Threshold::Info => 3,
        Threshold::Debug => 4,
        Threshold::Trace => 5,
    }
}

/// An event passes a threshold when it is at least as severe as the
/// threshold asks: its rank does not pass the threshold's rank.
pub open spec fn spec_enabled(t: Threshold, l: Level) -> bool {
    level_rank(l) <= threshold_rank(t)
}

/// Whether an event of severity `l` is emitted under threshold `t`.
pub fn enabled(t: Threshold, l: Level) -> (b: bool)
    ensures
        b == spec_enabled(t, l),
{
    let lr: u8 = match l {
        Level::Error => 1,
        Level::Warn => 2,
        Level::Info => 3,
        Level::Debug => 4,
        Level::Trace => 5,
    };
    let tr: u8 = match t {
        Threshold::Off => 0,
        Threshold::Error => 1,
        Threshold::Warn => 2,
        Threshold::Info => 3,
        Threshold::Debug => 4,
        Threshold::Trace => 5,
    };
    lr <= tr
}

/// The name an event record carries for each severity.
pub open spec fn spec_level_name(l: Level) -> Seq<char> {
    match l {
        Level::Trace => "TRACE"@,
        Level::Debug => "DEBUG"@,
        Level::Info => "INFO"@,
        Level::Warn => "WARN"@,
        Level::Error => "ERROR"@,
    }
}

/// The upper-case name of a severity.
pub fn level_name(l: Level) -> (r: &'static str)
    ensures
        r@ == spec_level_name(l),
{
    match l {
        Level::Trace => "TRACE",
        Level::Debug => "DEBUG",
        Level::Info => "INFO",
        Level::Warn => "WARN",
        Level::Error => "ERROR",
    }
}

/// The character's code with an upper-case ASCII letter folded to lower case.
pub open spec fn lower_code(c: char) -> u32 {
    if 'A' as u32 <= c as u32 && c as u32 <= 'Z' as u32 {
        (c as u32 + 32) as u32
    } else {
        c as u32
    }
}

/// Character-wise equality up to ASCII case.
pub open spec fn eq_ignore_case(a: Seq<char>, b: Seq<char>) -> bool {
    &&& a.len() == b.len()
    &&& forall|i: int| 0 <= i < a.len() ==> lower_code(a[i]) == lower_code(b[i])
}

/// Compare two strings character by character, folding ASCII case.
pub fn str_eq_ignore_case(a: &str, b: &str) -> (r: bool)
    ensures
        r == eq_ignore_case(a@, b@),
{
    let an = a.unicode_len();
    let bn = b.unicode_len();
    if an != bn {
        return false;
    }
    let mut i: usize = 0;
    while i < an
        invariant
            an == a@.len(),
            bn == b@.len(),
            an == bn,
            i <= an,
            forall|k: int| 0 <= k < i ==> lower_code(a@[k]) == lower_code(b@[k]),
        decreases an - i,
    {
        let ca = a.get_char(i) as u32;
        let cb = b.get_char(i) as u32;
        let la = if 65 <= ca && ca <= 90 { ca + 32 } else { ca };
        let lb = if 65 <= cb && cb <= 90 { cb + 32 } else { cb };
        if la != lb {
            return false;
        }
        i = i + 1;
    }
    true
}

/// Exact character-wise string equality.
pub fn str_eq(a: &str, b: &str) -> (r: bool)
    ensures
        r == (a@ == b@),
{
    let an = a.unicode_len();
    let bn = b.unicode_len();
    if an != bn {
        proof {
            assert(a@.len() != b@.len());
        }
        return false;
    }
    let mut i: usize = 0;
    while i < an
        invariant
            an == a@.len(),
            bn == b@.len(),
            an == bn,
            i <= an,
            forall|k: int| 0 <= k < i ==> a@[k] == b@[k],
        decreases an - i,
    {
        if a.get_char(i) != b.get_char(i) {
            return false;
        }
        i = i + 1;
    }
    proof {
        assert(a@ =~= b@);
    }
    true
}

/// The string without an optional single leading plus sign.
pub open spec fn numeric_part(s: Seq<char>) -> Seq<char> {
    if s.len() > 0 && s[0] == '+' {
        s.drop_first()
    } else {
        s
    }
}

/// A non-empty run of ASCII decimal digits.
pub open spec fn is_digits(s: Seq<char>) -> bool {
    &&& s.len() > 0
    &&& forall|i: int| 0 <= i < s.len() ==> '0' as u32 <= #[trigger] (s[i] as u32) && s[i] as u32 <= '9' as u32
}

/// The value of a run of decimal digits.
pub open spec fn digits_value(s: Seq<char>) -> int
    decreases s.len(),
{
    if s.len() == 0 {
        0
    } else {
        digits_value(s.drop_last()) * 10 + (s.last() as u32 - '0' as u32)
    }
}

/// The threshold a configuration string selects, mirroring how a decimal
/// rank is tried first, then the names (case-insensitively), `off`, and the
/// empty string standing for the error threshold.
pub open spec fn spec_parse_threshold(s: Seq<char>) -> Option<Threshold> {
    if is_digits(numeric_part(s)) {
        let v = digits_value(numeric_part(s));
        if v == 0 {
            Some(Threshold::Off)
        } else if v == 1 {
            Some(Threshold::Error)
        } else if v == 2 {
            Some(Threshold::Warn)
        } else if v == 3 {
            Some(Threshold::Info)
        } else if v == 4 {
            Some(Threshold::Debug)
        } else if v == 5 {
            Some(Threshold::Trace)
        } else {
            None
        }
    } else if s.len() == 0 {
        Some(Threshold::Error)
    } else if eq_ignore_case(s, "error"@) {
        Some(Threshold::Error)
    } else if eq_ignore_case(s, "warn"@) {
        Some(Threshold::Warn)
    } else if eq_ignore_case(s, "info"@) {
        Some(Threshold::Info)
    } else if eq_ignore_case(s, "debug"@) {
        Some(Threshold::Debug)
    } else if eq_ignore_case(s, "trace"@) {
        Some(Threshold::Trace)
    } else if eq_ignore_case(s, "off"@) {
        Some(Threshold::Off)
    } else {
        None
    }
}

/// Parse the configured severity threshold; `None` is a fatal startup error.
pub fn parse_threshold(s: &str) -> (r: Option<Threshold>)
    ensures
        r == spec_parse_threshold(s@),
{
    let n = s.unicode_len();
    let start: usize = if n > 0 && s.get_char(0) == '+' {
        1
    } else {
        0
    };
    proof {
        if start == 1 {
            assert(numeric_part(s@) =~= s@.subrange(1, n as int));
        } else {
            assert(numeric_part(s@) =~= s@);
        }
    }
    // try the decimal rank first, its value saturated just past the largest
    // rank so that every larger number is rejected alike
    let mut all_digits = n > start;
    let mut acc: u64 = 0;
    let mut i: usize = start;
    while i < n
        invariant
            n == s@.len(),
            start <= i <= n,
            start <= 1,
            all_digits == is_digits(s@.subrange(start as int, i as int)) || i == start,
            i == start ==> all_digits == (n > start),
            i == start ==> acc == 0,
            all_digits && i > start ==> {
                let v = digits_value(s@.subrange(start as int, i as int));
                (v <= 5 && acc == v) || (v > 5 && acc == 6)
            },
            acc <= 6,
        decreases n - i,
    {
        let c = s.get_char(i) as u32;
        if 48 <= c && c <= 57 {
            if all_digits {
                proof {
                    lemma_digits_extend(s@, start as int, i as int);
                }
                let ghost vpre = digits_value(s@.subrange(start as int, i as int));
                acc = acc * 10 + ((c - 48) as u64);
                if acc > 5 {
                    acc = 6;
                }
                proof {
                    let post = s@.subrange(start as int, i + 1 as int);
                    assert(digits_value(post) == vpre * 10 + (s@[i as int] as u32 - '0' as u32));
                    if i == start {
                        assert(s@.subrange(start as int, i as int).len() == 0);
                        assert(vpre == 0);
                    }
                }
            }
        } else {
            proof {
                let post = s@.subrange(start as int, i + 1 as int);
                assert(post[i - start] == s@[i as int]);
            }
            all_digits = false;
        }
        proof {
            if !all_digits {
                let post = s@.subrange(start as int, i + 1 as int);
                if is_digits(post) {
                    let pre = s@.subrange(start as int, i as int);
                    assert(post.drop_last() =~= pre);
                    assert(forall|k: int| 0 <= k < pre.len() ==> pre[k] == post[k]);
                    assert(false);
                }
            }
        }
        i = i + 1;
    }
    proof {
        assert(s@.subrange(start as int, n as int) =~= numeric_part(s@));
    }
    if all_digits {
        return match acc {
            0 => Some(Threshold::Off),
            1 => Some(Threshold::Error),
            2 => Some(Threshold::Warn),
            3 => Some(Threshold::Info),
            4 => Some(Threshold::Debug),
            5 => Some(Threshold::Trace),
            _ => None,
        };
    }
    if s.unicode_len() == 0 {
        return Some(Threshold::Error);
    }
    if str_eq_ignore_case(s, "error") {
        Some(Threshold::Error)
    } else if str_eq_ignore_case(s, "warn") {
        Some(Threshold::Warn)
    } else if str_eq_ignore_case(s, "info") {
        Some(Threshold::Info)
    } else if str_eq_ignore_case(s, "debug") {
        Some(Threshold::Debug)
    } else if str_eq_ignore_case(s, "trace") {
        Some(Threshold::Trace)
    } else if str_eq_ignore_case(s, "off") {
        Some(Threshold::Off)
    } else {
        None
    }
}

/// Extending a run of digits by one digit keeps it a run and appends the
/// digit to its value.
proof fn lemma_digits_extend(s: Seq<char>, start: int, i: int)
    requires
        0 <= start <= i < s.len(),
        '0' as u32 <= s[i] as u32 && s[i] as u32 <= '9' as u32,
        i > start ==> is_digits(s.subrange(start, i)),
    ensures
        is_digits(s.subrange(start, i + 1)),
        digits_value(s.subrange(start, i + 1)) == digits_value(s.subrange(start, i)) * 10 + (
        s[i] as u32 - '0' as u32),
{
    let pre = s.subrange(start, i);
    let post = s.subrange(start, i + 1);
    assert(post.drop_last() =~= pre);
    assert(post.last() == s[i]);
    assert forall|k: int|
        0 <= k < post.len() implies '0' as u32 <= #[trigger] (post[k] as u32) && post[k] as u32
        <= '9' as u32 by {
        if k < pre.len() {
            assert(post[k] == pre[k]);
            assert('0' as u32 <= (pre[k] as u32) && pre[k] as u32 <= '9' as u32);
        } else {
            assert(post[k] == s[i]);
        }
    }
}

} // verus!
