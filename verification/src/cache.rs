//! The source archive cache: how long entries live, and how they are listed.
use vstd::prelude::*;

use crate::profile::{char_is_whitespace, is_whitespace};
use crate::text::{
    all_digits, decimal_text, decimal_value, is_all_digits, is_digit, join2,
    lemma_decimal_text_roundtrip, lemma_decimal_value_prefix_le, lemma_decimal_value_step,
    text_result,
};

verus! {

/// How long a cached source archive is kept after its last use: 14 days.
pub const DEFAULT_CACHE_TTL_SECS: u64 = 1209600;

/// The text without white space at its start.
pub open spec fn trim_start(s: Seq<char>) -> Seq<char>
    decreases s.len(),
{
    if s.len() > 0 && is_whitespace(s[0]) {
        trim_start(s.skip(1))
    } else {
        s
    }
}

/// The text without white space at its end.
pub open spec fn trim_end(s: Seq<char>) -> Seq<char>
    decreases s.len(),
{
    if s.len() > 0 && is_whitespace(s.last()) {
        trim_end(s.drop_last())
    } else {
        s
    }
}

/// The text without white space at either end, as `str::trim` gives it.
pub open spec fn trim(s: Seq<char>) -> Seq<char> {
    trim_end(trim_start(s))
}

/// An ASCII letter.
pub open spec fn is_ascii_alpha(c: char) -> bool {
    ('a' <= c && c <= 'z') || ('A' <= c && c <= 'Z')
}

/// The text without ASCII letters at its end.
pub open spec fn trim_alpha_end(s: Seq<char>) -> Seq<char>
    decreases s.len(),
{
    if s.len() > 0 && is_ascii_alpha(s.last()) {
        trim_alpha_end(s.drop_last())
    } else {
        s
    }
}

/// Seconds per unit of a duration: none or `s`, `m`, `h`, `d`.
pub open spec fn unit_seconds(unit: Seq<char>) -> Option<nat> {
    if unit.len() == 0 || unit == seq!['s'] {
        Some(1)
    } else if unit == seq!['m'] {
        Some(60)
    } else if unit == seq!['h'] {
        Some(3600)
    } else if unit == seq!['d'] {
        Some(86400)
    } else {
        None
    }
}

/// What `parse_duration_arg` gives: a number of seconds from digits and an
/// optional unit, white space around them ignored.
pub open spec fn duration_seconds(input: Seq<char>) -> Result<u64, Seq<char>> {
    let t = trim(input);
    let n = trim_alpha_end(t).len();
    let digits = t.take(n as int);
    let unit = t.skip(n as int);
    if digits.len() == 0 || !all_digits(digits) {
        Err("invalid duration: "@ + input)
    } else if decimal_value(digits) > u64::MAX {
        Err("duration is too large: "@ + input)
    } else {
        match unit_seconds(unit) {
            None => Err("unsupported duration unit: "@ + input),
            Some(m) => if decimal_value(digits) * m > u64::MAX {
                Err("duration is too large: "@ + input)
            } else {
                Ok((decimal_value(digits) * m) as u64)
            },
        }
    }
}

proof fn lemma_trim_start_skip(s: Seq<char>, i: int)
    requires
        0 <= i <= s.len(),
        forall|k: int| 0 <= k < i ==> #[trigger] is_whitespace(s[k]),
    ensures
        trim_start(s) == trim_start(s.skip(i)),
    decreases i,
{
    if i > 0 {
        assert(s.skip(1).skip(i - 1) =~= s.skip(i));
        lemma_trim_start_skip(s.skip(1), i - 1);
    } else {
        assert(s.skip(0) =~= s);
    }
}

proof fn lemma_trim_end_take(s: Seq<char>, j: int)
    requires
        0 <= j <= s.len(),
        forall|k: int| j <= k < s.len() ==> #[trigger] is_whitespace(s[k]),
    ensures
        trim_end(s) == trim_end(s.take(j)),
    decreases s.len() - j,
{
    if j < s.len() {
        assert(is_whitespace(s[s.len() - 1]));
        assert(s.drop_last().take(j) =~= s.take(j));
        lemma_trim_end_take(s.drop_last(), j);
    } else {
        assert(s.take(j) =~= s);
    }
}

proof fn lemma_trim_alpha_end_take(s: Seq<char>, j: int)
    requires
        0 <= j <= s.len(),
        forall|k: int| j <= k < s.len() ==> #[trigger] is_ascii_alpha(s[k]),
    ensures
        trim_alpha_end(s) == trim_alpha_end(s.take(j)),
    decreases s.len() - j,
{
    if j < s.len() {
        assert(is_ascii_alpha(s[s.len() - 1]));
        assert(s.drop_last().take(j) =~= s.take(j));
        lemma_trim_alpha_end_take(s.drop_last(), j);
    } else {
        assert(s.take(j) =~= s);
    }
}

/// The text of `s` without white space at either end.
pub fn trim_str<'a>(s: &'a str) -> (r: &'a str)
    ensures
        r@ == trim(s@),
{
    let len = s.unicode_len();
    let mut start: usize = 0;
    while start < len && char_is_whitespace(s.get_char(start))
        invariant
            len == s@.len(),
            start <= len,
            forall|k: int| 0 <= k < start ==> #[trigger] is_whitespace(s@[k]),
        decreases len - start,
    {
        start = start + 1;
    }
    proof {
        lemma_trim_start_skip(s@, start as int);
    }
    let ghost t = s@.skip(start as int);
    assert(start < len ==> !is_whitespace(t[0]));
    assert(trim_start(s@) == t);
    let mut end: usize = len;
    while end > start && char_is_whitespace(s.get_char(end - 1))
        invariant
            len == s@.len(),
            start <= end <= len,
            t == s@.skip(start as int),
            forall|k: int| end - start <= k < t.len() ==> #[trigger] is_whitespace(t[k]),
        decreases end - start,
    {
        end = end - 1;
    }
    proof {
        lemma_trim_end_take(t, end - start);
        let u = t.take(end - start);
        assert(u.len() > 0 ==> u.last() == s@[end - 1]);
    }
    let r = s.substring_char(start, end);
    assert(r@ =~= t.take(end - start));
    r
}

/// Whether `c` is an ASCII letter.
fn char_is_ascii_alpha(c: char) -> (r: bool)
    ensures
        r == is_ascii_alpha(c),
{
    ('a' <= c && c <= 'z') || ('A' <= c && c <= 'Z')
}

/// The number of characters left once ASCII letters are taken off the end.
fn alpha_suffix_start(s: &str) -> (r: usize)
    ensures
        r <= s@.len(),
        r as nat == trim_alpha_end(s@).len(),
        trim_alpha_end(s@) == s@.take(r as int),
{
    let len = s.unicode_len();
    let mut end: usize = len;
    while end > 0 && char_is_ascii_alpha(s.get_char(end - 1))
        invariant
            len == s@.len(),
            end <= len,
            forall|k: int| end <= k < len ==> #[trigger] is_ascii_alpha(s@[k]),
        decreases end,
    {
        end = end - 1;
    }
    proof {
        lemma_trim_alpha_end_take(s@, end as int);
        let u = s@.take(end as int);
        assert(u.len() > 0 ==> u.last() == s@[end - 1]);
    }
    end
}

/// The value of a run of digits, or `None` where it exceeds `u64::MAX`.
pub fn decimal_u64(s: &str) -> (r: Option<u64>)
    requires
        all_digits(s@),
    ensures
        match r {
            Some(n) => n as nat == decimal_value(s@),
            None => decimal_value(s@) > u64::MAX,
        },
{
    let len = s.unicode_len();
    let mut acc: u128 = 0;
    let mut i: usize = 0;
    assert(s@.take(0) =~= Seq::<char>::empty());
    while i < len
        invariant
            len == s@.len(),
            i <= len,
            all_digits(s@),
            acc as nat == decimal_value(s@.take(i as int)),
            acc <= u64::MAX,
        decreases len - i,
    {
        let c = s.get_char(i);
        assert(is_digit(s@[i as int]));
        let d: u32 = (c as u32) - ('0' as u32);
        proof {
            lemma_decimal_value_step(s@, i as int);
        }
        let next: u128 = acc * 10 + d as u128;
        if next > 18446744073709551615u128 {
            proof {
                lemma_decimal_value_prefix_le(s@, i + 1);
            }
            return None;
        }
        acc = next;
        i = i + 1;
    }
    assert(s@.take(len as int) =~= s@);
    Some(acc as u64)
}

/// Reads a duration such as `30`, `90s`, `15m`, `12h` or `14d` as seconds.
pub fn parse_duration_arg(input: &str) -> (r: Result<u64, String>)
    ensures
        text_result(r) == duration_seconds(input@),
{
    let trimmed = trim_str(input);
    let n = alpha_suffix_start(trimmed);
    let len = trimmed.unicode_len();
    let digits = trimmed.substring_char(0, n);
    let unit = trimmed.substring_char(n, len);
    assert(digits@ =~= trimmed@.take(n as int));
    assert(unit@ =~= trimmed@.skip(n as int));
    if digits.unicode_len() == 0 || !is_all_digits(digits) {
        return Err(join2("invalid duration: ", input));
    }
    let value = match decimal_u64(digits) {
        Some(v) => v,
        None => return Err(join2("duration is too large: ", input)),
    };
    let ulen = unit.unicode_len();
    let multiplier: u64 = if ulen == 0 {
        1
    } else if ulen == 1 {
        let c = unit.get_char(0);
        assert(unit@ =~= seq![c]);
        if c == 's' {
            1
        } else if c == 'm' {
            60
        } else if c == 'h' {
            3600
        } else if c == 'd' {
            86400
        } else {
            return Err(join2("unsupported duration unit: ", input));
        }
    } else {
        assert(unit@ != seq!['s'] && unit@ != seq!['m'] && unit@ != seq!['h'] && unit@ != seq!['d']) by {
            assert(unit@.len() != 1);
        }
        return Err(join2("unsupported duration unit: ", input));
    };
    match value.checked_mul(multiplier) {
        Some(v) => Ok(v),
        None => Err(join2("duration is too large: ", input)),
    }
}

/// A number written in decimal, followed by no unit or by `s`, `m`, `h` or
/// `d`, reads back as that many seconds, minutes, hours or days, in seconds,
/// when the product fits in 64 bits.
pub proof fn law_duration_text(n: u64, unit: Seq<char>)
    requires
        unit_seconds(unit) is Some,
        n * unit_seconds(unit).unwrap() <= u64::MAX,
    ensures
        duration_seconds(decimal_text(n as nat) + unit) == Ok::<u64, Seq<char>>(
            (n * unit_seconds(unit).unwrap()) as u64,
        ),
{
    let d = decimal_text(n as nat);
    lemma_decimal_text_roundtrip(n as nat);
    let t = d + unit;
    assert(unit.len() <= 1);
    assert(unit.len() == 1 ==> is_ascii_alpha(unit[0]));
    assert(is_digit(d[0]) && is_digit(d.last()));
    assert(t[0] == d[0]);
    assert(trim_start(t) == t);
    if unit.len() == 0 {
        assert(t =~= d);
    } else {
        assert(t.last() == unit[0]);
    }
    assert(trim_end(t) == t);
    assert(trim(t) == t);
    assert forall|k: int| d.len() <= k < t.len() implies #[trigger] is_ascii_alpha(t[k]) by {
        assert(t[k] == unit[k - d.len()]);
    }
    lemma_trim_alpha_end_take(t, d.len() as int);
    assert(t.take(d.len() as int) =~= d);
    assert(t.skip(d.len() as int) =~= unit);
    assert(trim_alpha_end(d) == d);
}

/// What preparing a release's source package downloads, given what the cache
/// already holds: the archive when it is not cached, and the signature when
/// the archive is downloaded anew or the signature is not cached.
pub fn source_downloads(archive_cached: bool, signature_cached: bool) -> (r: (bool, bool))
    ensures
        r.0 == !archive_cached,
        r.1 == (!archive_cached || !signature_cached),
{
    let archive = !archive_cached;
    (archive, archive || !signature_cached)
}

/// A cache entry last used at `last_used` is stale at `now` when more than
/// `max_age` seconds have passed (a clock that went backwards counts as none).
pub open spec fn is_stale(now: u64, last_used: u64, max_age: u64) -> bool {
    (if now >= last_used { now - last_used } else { 0 }) > max_age
}

/// Whether a cache entry is old enough to prune.
pub fn cache_entry_is_stale(now: u64, last_used: u64, max_age_secs: u64) -> (r: bool)
    ensures
        r == is_stale(now, last_used, max_age_secs),
{
    now.saturating_sub(last_used) > max_age_secs
}

} // verus!
