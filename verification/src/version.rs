//! Compiler release versions (`X.Y.Z` or `X.Y.Z-rcN`) and version prefixes
//! (`X`, `X.Y`, `X.Y.Z`).
use std::cmp::Ordering;
use vstd::prelude::*;

use crate::text::{
    join_pieces, lemma_decimal_value_text, lemma_find_from_occurs, lemma_split_char_join,
    lemma_split_char_nonempty, is_digit, lemma_decimal_text_roundtrip, lemma_find_from_first, lemma_find_from_none,
    lemma_split_char_append, lemma_split_char_no_sep, lemma_split_char_push_sep, occurs_at,
    all_digits, contains_char, decimal_string, decimal_text, decimal_u32, decimal_value, find,
    find_str, is_all_digits, join2, split_char, split_on_char, text_result,
};

verus! {

/// A release version of a compiler: `major.minor.patch`, optionally a
/// release candidate `-rcN`.
#[derive(Debug, Clone, Copy, PartialEq, Eq, Structural)]
pub struct Version {
    major: u32,
    minor: u32,
    patch: u32,
    rc: Option<u32>,
}

/// What a `Version` holds.
pub struct VersionView {
    pub major: u32,
    pub minor: u32,
    pub patch: u32,
    pub rc: Option<u32>,
}

impl View for Version {
    type V = VersionView;

    closed spec fn view(&self) -> VersionView {
        VersionView { major: self.major, minor: self.minor, patch: self.patch, rc: self.rc }
    }
}

/// Two versions that hold the same numbers are the same version.
pub proof fn lemma_version_view_injective(a: Version, b: Version)
    requires
        a@ == b@,
    ensures
        a == b,
{
}

/// A prefix of a version: the major number, optionally the minor and patch.
#[derive(Debug, Clone, Copy, PartialEq, Eq, Structural)]
pub struct VersionPrefix {
    pub major: u32,
    pub minor: Option<u32>,
    pub patch: Option<u32>,
}

/// The error that a numeric component yields: not a run of digits, or too large.
pub open spec fn parse_component(value: Seq<char>, original: Seq<char>) -> Result<u32, Seq<char>> {
    if value.len() == 0 || !all_digits(value) {
        Err("invalid numeric component in version: "@ + original)
    } else if decimal_value(value) > u32::MAX {
        Err("version component is too large: "@ + original)
    } else {
        Ok(decimal_value(value) as u32)
    }
}

/// The `X.Y.Z` part of a version text, with the release candidate already read.
pub open spec fn parse_core(core: Seq<char>, input: Seq<char>, rc: Option<u32>) -> Result<VersionView, Seq<char>> {
    let parts = split_char(core, '.');
    if parts.len() != 3 {
        Err("version must be X.Y.Z or X.Y.Z-rcN: "@ + input)
    } else {
        match parse_component(parts[0], input) {
            Err(e) => Err(e),
            Ok(major) => match parse_component(parts[1], input) {
                Err(e) => Err(e),
                Ok(minor) => match parse_component(parts[2], input) {
                    Err(e) => Err(e),
                    Ok(patch) => Ok(VersionView { major, minor, patch, rc }),
                },
            },
        }
    }
}

/// What `Version::parse` gives for a text: the text is split at the first
/// `-rc`; what follows must be a number; the rest must be three numbers
/// joined by dots. Any other `-` is refused.
pub open spec fn parse_version(input: Seq<char>) -> Result<VersionView, Seq<char>> {
    match find(input, "-rc"@) {
        Some(i) => {
            let suffix = input.skip(i + 3);
            if suffix.len() == 0 || !all_digits(suffix) {
                Err("invalid rc version: "@ + input)
            } else {
                match parse_component(suffix, input) {
                    Err(e) => Err(e),
                    Ok(rc) => parse_core(input.take(i), input, Some(rc)),
                }
            }
        },
        None => {
            if input.contains('-') {
                Err("unsupported version suffix: "@ + input)
            } else {
                parse_core(input, input, None)
            }
        },
    }
}

/// The text of a version, as it is displayed: `X.Y.Z` or `X.Y.Z-rcN`.
pub open spec fn version_text(v: VersionView) -> Seq<char> {
    let core = decimal_text(v.major as nat) + "."@ + decimal_text(v.minor as nat) + "."@
        + decimal_text(v.patch as nat);
    match v.rc {
        Some(n) => core + "-rc"@ + decimal_text(n as nat),
        None => core,
    }
}

/// What `VersionPrefix::parse` gives for a text: one to three numbers joined by dots.
pub open spec fn parse_prefix(input: Seq<char>) -> Result<VersionPrefix, Seq<char>> {
    let parts = split_char(input, '.');
    if input.contains('-') {
        Err("version prefix must be numeric dot components: "@ + input)
    } else if parts.len() == 0 || parts.len() > 3 {
        Err("version prefix must be X, X.Y, or X.Y.Z: "@ + input)
    } else {
        match parse_component(parts[0], input) {
            Err(e) => Err(e),
            Ok(major) => {
                let minor = if parts.len() > 1 { Some(parse_component(parts[1], input)) } else { None };
                match minor {
                    Some(Err(e)) => Err(e),
                    _ => {
                        let patch = if parts.len() > 2 { Some(parse_component(parts[2], input)) } else { None };
                        match patch {
                            Some(Err(e)) => Err(e),
                            _ => Ok(VersionPrefix {
                                major,
                                minor: match minor { Some(Ok(m)) => Some(m), _ => None },
                                patch: match patch { Some(Ok(p)) => Some(p), _ => None },
                            }),
                        }
                    },
                }
            },
        }
    }
}

/// A version lies under a prefix when it agrees on every number the prefix gives.
pub open spec fn prefix_matches(v: VersionView, p: VersionPrefix) -> bool {
    &&& v.major == p.major
    &&& (p.minor matches Some(m) ==> v.minor == m)
    &&& (p.patch matches Some(q) ==> v.patch == q)
}

/// Release candidates rank below the release itself.
pub open spec fn rc_rank(v: VersionView) -> nat {
    if v.rc is Some { 0 } else { 1 }
}

/// The candidate number, zero for a release.
pub open spec fn rc_number(v: VersionView) -> nat {
    match v.rc {
        Some(n) => n as nat,
        None => 0,
    }
}

/// Versions are ordered by major, minor, patch, then candidates before the
/// release, then by candidate number.
pub open spec fn version_less(a: VersionView, b: VersionView) -> bool {
    if a.major != b.major {
        a.major < b.major
    } else if a.minor != b.minor {
        a.minor < b.minor
    } else if a.patch != b.patch {
        a.patch < b.patch
    } else if rc_rank(a) != rc_rank(b) {
        rc_rank(a) < rc_rank(b)
    } else {
        rc_number(a) < rc_number(b)
    }
}

/// The three-way comparison of two versions under `version_less`.
pub open spec fn version_order(a: VersionView, b: VersionView) -> Ordering {
    if version_less(a, b) {
        Ordering::Less
    } else if version_less(b, a) {
        Ordering::Greater
    } else {
        Ordering::Equal
    }
}

/// The view of a parse result, so that contracts can speak of it.
pub open spec fn version_result(r: Result<Version, String>) -> Result<VersionView, Seq<char>> {
    match r {
        Ok(v) => Ok(v@),
        Err(e) => Err(e@),
    }
}

/// Reads one numeric component of a version; `original` is the whole text,
/// named in the error.
pub fn parse_u32(value: &str, original: &str) -> (r: Result<u32, String>)
    ensures
        text_result(r) == parse_component(value@, original@),
{
    if value.unicode_len() == 0 || !is_all_digits(value) {
        return Err(join2("invalid numeric component in version: ", original));
    }
    match decimal_u32(value) {
        Some(n) => Ok(n),
        None => Err(join2("version component is too large: ", original)),
    }
}

impl Version {
    fn parse_core(core: &str, input: &str, rc: Option<u32>) -> (r: Result<Version, String>)
        ensures
            version_result(r) == parse_core(core@, input@, rc),
    {
        let parts = split_on_char(core, '.');
        if parts.len() != 3 {
            return Err(join2("version must be X.Y.Z or X.Y.Z-rcN: ", input));
        }
        let major = match parse_u32(parts[0], input) {
            Ok(n) => n,
            Err(e) => return Err(e),
        };
        let minor = match parse_u32(parts[1], input) {
            Ok(n) => n,
            Err(e) => return Err(e),
        };
        let patch = match parse_u32(parts[2], input) {
            Ok(n) => n,
            Err(e) => return Err(e),
        };
        Ok(Version { major, minor, patch, rc })
    }

    /// Reads `X.Y.Z` or `X.Y.Z-rcN`.
    pub fn parse(input: &str) -> (r: Result<Version, String>)
        ensures
            version_result(r) == parse_version(input@),
    {
        proof {
            reveal_strlit("-rc");
        }
        match find_str(input, "-rc") {
            Some(i) => {
                let len = input.unicode_len();
                let suffix = input.substring_char(i + 3, len);
                assert(suffix@ =~= input@.skip(i + 3));
                if suffix.unicode_len() == 0 || !is_all_digits(suffix) {
                    return Err(join2("invalid rc version: ", input));
                }
                let rc = match parse_u32(suffix, input) {
                    Ok(n) => n,
                    Err(e) => return Err(e),
                };
                let core = input.substring_char(0, i);
                assert(core@ =~= input@.take(i as int));
                Version::parse_core(core, input, Some(rc))
            },
            None => {
                if contains_char(input, '-') {
                    return Err(join2("unsupported version suffix: ", input));
                }
                Version::parse_core(input, input, None)
            },
        }
    }

    /// Whether this version lies under `prefix`.
    pub fn matches_prefix(&self, prefix: &VersionPrefix) -> (r: bool)
        ensures
            r == prefix_matches(self@, *prefix),
    {
        self.major == prefix.major && match prefix.minor {
            Some(m) => self.minor == m,
            None => true,
        } && match prefix.patch {
            Some(p) => self.patch == p,
            None => true,
        }
    }

    /// 0 for a release candidate, 1 for a release.
    pub fn rc_rank(&self) -> (r: u8)
        ensures
            r as nat == rc_rank(self@),
    {
        if self.rc.is_some() {
            0
        } else {
            1
        }
    }

    /// The displayed text: `X.Y.Z` or `X.Y.Z-rcN`.
    pub fn to_string(&self) -> (r: String)
        ensures
            r@ == version_text(self@),
    {
        let mut s = decimal_string(self.major);
        s.append(".");
        s.append(decimal_string(self.minor).as_str());
        s.append(".");
        s.append(decimal_string(self.patch).as_str());
        match self.rc {
            Some(n) => {
                s.append("-rc");
                s.append(decimal_string(n).as_str());
            },
            None => {},
        }
        s
    }
}

impl VersionPrefix {
    /// Reads `X`, `X.Y` or `X.Y.Z`.
    pub fn parse(input: &str) -> (r: Result<VersionPrefix, String>)
        ensures
            text_result(r) == parse_prefix(input@),
    {
        if contains_char(input, '-') {
            return Err(join2("version prefix must be numeric dot components: ", input));
        }
        let parts = split_on_char(input, '.');
        if parts.len() == 0 || parts.len() > 3 {
            return Err(join2("version prefix must be X, X.Y, or X.Y.Z: ", input));
        }
        let major = match parse_u32(parts[0], input) {
            Ok(n) => n,
            Err(e) => return Err(e),
        };
        let minor = if parts.len() > 1 {
            match parse_u32(parts[1], input) {
                Ok(n) => Some(n),
                Err(e) => return Err(e),
            }
        } else {
            None
        };
        let patch = if parts.len() > 2 {
            match parse_u32(parts[2], input) {
                Ok(n) => Some(n),
                Err(e) => return Err(e),
            }
        } else {
            None
        };
        Ok(VersionPrefix { major, minor, patch })
    }
}

impl Version {
    /// Compares by major, minor, patch, then release candidates before the
    /// release, then by candidate number.
    pub fn compare(&self, other: &Version) -> (r: Ordering)
        ensures
            r == version_order(self@, other@),
    {
        if self.major != other.major {
            if self.major < other.major { Ordering::Less } else { Ordering::Greater }
        } else if self.minor != other.minor {
            if self.minor < other.minor { Ordering::Less } else { Ordering::Greater }
        } else if self.patch != other.patch {
            if self.patch < other.patch { Ordering::Less } else { Ordering::Greater }
        } else {
            let a = self.rc_rank();
            let b = other.rc_rank();
            if a != b {
                if a < b { Ordering::Less } else { Ordering::Greater }
            } else {
                let x = match self.rc { Some(n) => n, None => 0 };
                let y = match other.rc { Some(n) => n, None => 0 };
                if x < y {
                    Ordering::Less
                } else if y < x {
                    Ordering::Greater
                } else {
                    Ordering::Equal
                }
            }
        }
    }

    /// Whether this version orders strictly before `other`.
    pub fn is_older_than(&self, other: &Version) -> (r: bool)
        ensures
            r == version_less(self@, other@),
    {
        match self.compare(other) {
            Ordering::Less => true,
            _ => false,
        }
    }
}

impl PartialOrd for Version {
    fn partial_cmp(&self, other: &Version) -> (r: Option<Ordering>) {
        Some(self.compare(other))
    }
}

impl vstd::std_specs::cmp::PartialOrdSpecImpl for Version {
    open spec fn obeys_partial_cmp_spec() -> bool {
        true
    }

    open spec fn partial_cmp_spec(&self, other: &Version) -> Option<Ordering> {
        Some(version_order(self@, other@))
    }
}

/// The version order is a strict total order: no version precedes itself,
/// precedence is transitive, and of two different versions one precedes the other.
pub proof fn law_version_order_total(a: VersionView, b: VersionView, c: VersionView)
    ensures
        !version_less(a, a),
        version_less(a, b) && version_less(b, c) ==> version_less(a, c),
        a != b ==> (version_less(a, b) || version_less(b, a)),
        !(version_less(a, b) && version_less(b, a)),
{
    if a != b && !version_less(a, b) && !version_less(b, a) {
        assert(a.rc == b.rc) by {
            match (a.rc, b.rc) {
                (Some(x), Some(y)) => {},
                (None, None) => {},
                _ => {},
            }
        }
    }
}

/// Comparing two versions says `Equal` exactly when they are the same version.
pub proof fn law_version_order_equal(a: Version, b: Version)
    ensures
        (version_order(a@, b@) == Ordering::Equal) <==> a == b,
        version_order(a@, b@) == Ordering::Less <==> version_order(b@, a@) == Ordering::Greater,
{
    law_version_order_total(a@, b@, a@);
    if a@ == b@ {
        lemma_version_view_injective(a, b);
    }
}

/// A release candidate precedes the release of the same number, and later
/// candidates follow earlier ones.
pub proof fn law_rc_before_release(major: u32, minor: u32, patch: u32, n: u32, m: u32)
    ensures
        version_less(
            VersionView { major, minor, patch, rc: Some(n) },
            VersionView { major, minor, patch, rc: None },
        ),
        n < m ==> version_less(
            VersionView { major, minor, patch, rc: Some(n) },
            VersionView { major, minor, patch, rc: Some(m) },
        ),
{
}

/// Somewhere in the text a number is padded with a leading zero: a `0` that
/// starts a run of digits and is followed by another digit.
pub open spec fn has_padded_number(s: Seq<char>) -> bool {
    exists|i: int|
        #![trigger s[i]]
        0 <= i < s.len() - 1 && s[i] == '0' && is_digit(s[i + 1]) && (i == 0 || !is_digit(s[i - 1]))
}

/// A run of digits in a text without padded numbers has no superfluous zero.
proof fn lemma_unpadded_part(s: Seq<char>, start: int, p: Seq<char>)
    requires
        0 <= start,
        start + p.len() <= s.len(),
        s.subrange(start, start + p.len()) == p,
        p.len() >= 1,
        all_digits(p),
        start == 0 || !is_digit(s[start - 1]),
        !has_padded_number(s),
    ensures
        p[0] != '0' || p.len() == 1,
{
    if p[0] == '0' && p.len() > 1 {
        assert(s[start] == p[0]);
        assert(s[start + 1] == p[1]);
        assert(is_digit(p[1]));
    }
}

/// A component that parses is a non-empty run of digits.
proof fn lemma_component_digits(value: Seq<char>, original: Seq<char>)
    requires
        parse_component(value, original) is Ok,
    ensures
        value.len() >= 1,
        all_digits(value),
        parse_component(value, original) == Ok::<u32, Seq<char>>(decimal_value(value) as u32),
{
}

/// The `X.Y.Z` part of a valid text without padded numbers reads back as written.
proof fn lemma_core_roundtrip(s: Seq<char>, core: Seq<char>, input: Seq<char>, rc: Option<u32>)
    requires
        core.len() <= s.len(),
        s.take(core.len() as int) == core,
        !has_padded_number(s),
        parse_core(core, input, rc) is Ok,
    ensures
        ({
            let v = parse_core(core, input, rc)->Ok_0;
            decimal_text(v.major as nat) + "."@ + decimal_text(v.minor as nat) + "."@
                + decimal_text(v.patch as nat) == core
        }),
{
    reveal_strlit(".");
    let parts = split_char(core, '.');
    let a = parts[0];
    let b = parts[1];
    let c = parts[2];
    let la = a.len() as int;
    let lb = b.len() as int;
    let lc = c.len() as int;
    lemma_component_digits(a, input);
    lemma_component_digits(b, input);
    lemma_component_digits(c, input);
    lemma_split_char_join(core, '.');
    assert(parts.drop_last().drop_last() =~= seq![a]);
    assert(join_pieces(parts.drop_last().drop_last(), '.') == a);
    assert(parts.drop_last() =~= seq![a, b]);
    assert(join_pieces(parts.drop_last(), '.') =~= a + seq!['.'] + b);
    assert(core =~= a + seq!['.'] + b + seq!['.'] + c);
    assert forall|k: int| 0 <= k < core.len() implies s[k] == core[k] by {
        assert(s.take(core.len() as int)[k] == s[k]);
    }
    let whole = a + seq!['.'] + b + seq!['.'] + c;
    assert(core == whole);
    assert(whole[la] == '.');
    assert(whole[la + lb + 1] == '.');
    assert(whole.subrange(0, la) =~= a);
    assert(whole.subrange(la + 1, la + 1 + lb) =~= b);
    assert(whole.subrange(la + lb + 2, la + lb + 2 + lc) =~= c);
    assert(s.subrange(0, la) =~= a);
    lemma_unpadded_part(s, 0, a);
    assert(s.subrange(la + 1, la + 1 + lb) =~= b);
    assert(s[la] == '.');
    lemma_unpadded_part(s, la + 1, b);
    assert(s.subrange(la + lb + 2, la + lb + 2 + lc) =~= c);
    assert(s[la + lb + 1] == '.');
    lemma_unpadded_part(s, la + lb + 2, c);
    lemma_decimal_value_text(a);
    lemma_decimal_value_text(b);
    lemma_decimal_value_text(c);
    assert("."@ =~= seq!['.']);
}

/// Displaying a version read from a text gives back the text, when no number
/// in it is padded with a leading zero.
pub proof fn law_version_text_of_parse(s: Seq<char>)
    requires
        parse_version(s) is Ok,
        !has_padded_number(s),
    ensures
        version_text(parse_version(s)->Ok_0) == s,
{
    reveal_strlit("-rc");
    match find(s, "-rc"@) {
        Some(i) => {
            lemma_find_from_occurs(s, "-rc"@, 0);
            let suffix = s.skip(i + 3);
            let core = s.take(i);
            let rc = decimal_value(suffix) as u32;
            assert(parse_component(suffix, s) is Ok);
            lemma_component_digits(suffix, s);
            lemma_core_roundtrip(s, core, s, Some(rc));
            assert(s.subrange(i + 3, i + 3 + suffix.len()) =~= suffix);
            assert(s.subrange(i, i + 3) =~= "-rc"@);
            assert(s[i + 2] == s.subrange(i, i + 3)[2]);
            lemma_unpadded_part(s, i + 3, suffix);
            lemma_decimal_value_text(suffix);
            assert(s =~= core + "-rc"@ + suffix);
        },
        None => {
            assert(s.take(s.len() as int) =~= s);
            lemma_core_roundtrip(s, s, s, None);
        },
    }
}

/// The digits of a number hold no dot and no dash.
proof fn lemma_decimal_text_plain(n: nat)
    ensures
        !decimal_text(n).contains('.'),
        !decimal_text(n).contains('-'),
        decimal_text(n).len() >= 1,
        all_digits(decimal_text(n)),
        decimal_value(decimal_text(n)) == n,
{
    lemma_decimal_text_roundtrip(n);
    let t = decimal_text(n);
    assert(!t.contains('.')) by {
        if t.contains('.') {
            let k = choose|k: int| 0 <= k < t.len() && t[k] == '.';
            assert(is_digit(t[k]));
        }
    }
    assert(!t.contains('-')) by {
        if t.contains('-') {
            let k = choose|k: int| 0 <= k < t.len() && t[k] == '-';
            assert(is_digit(t[k]));
        }
    }
}

/// The `X.Y.Z` text of a version splits into its three numbers and holds no dash.
proof fn lemma_core_text(v: VersionView)
    ensures
        ({
            let core = decimal_text(v.major as nat) + "."@ + decimal_text(v.minor as nat) + "."@
                + decimal_text(v.patch as nat);
            &&& split_char(core, '.') =~= seq![
                decimal_text(v.major as nat),
                decimal_text(v.minor as nat),
                decimal_text(v.patch as nat),
            ]
            &&& !core.contains('-')
        }),
{
    reveal_strlit(".");
    let a = decimal_text(v.major as nat);
    let b = decimal_text(v.minor as nat);
    let c = decimal_text(v.patch as nat);
    lemma_decimal_text_plain(v.major as nat);
    lemma_decimal_text_plain(v.minor as nat);
    lemma_decimal_text_plain(v.patch as nat);
    lemma_split_char_no_sep(a, '.');
    lemma_split_char_push_sep(a, '.');
    assert(a + "."@ =~= a.push('.'));
    lemma_split_char_append(a + "."@, b, '.');
    assert(a + "."@ + b + "."@ =~= (a + "."@ + b).push('.'));
    lemma_split_char_push_sep(a + "."@ + b, '.');
    lemma_split_char_append(a + "."@ + b + "."@, c, '.');
    let core = a + "."@ + b + "."@ + c;
    assert(!core.contains('-')) by {
        if core.contains('-') {
            let k = choose|k: int| 0 <= k < core.len() && core[k] == '-';
            if k < a.len() {
                assert(a[k] == '-');
            } else if k == a.len() {
                assert(core[k] == '.');
            } else if k < a.len() + 1 + b.len() {
                assert(b[k - a.len() - 1] == '-');
            } else if k == a.len() + 1 + b.len() {
                assert(core[k] == '.');
            } else {
                assert(c[k - a.len() - 2 - b.len()] == '-');
            }
        }
    }
}

/// Reading back the displayed text of a version gives the same version.
pub proof fn law_parse_version_text(v: VersionView)
    ensures
        parse_version(version_text(v)) == Ok::<VersionView, Seq<char>>(v),
{
    reveal_strlit("-rc");
    let core = decimal_text(v.major as nat) + "."@ + decimal_text(v.minor as nat) + "."@
        + decimal_text(v.patch as nat);
    lemma_core_text(v);
    lemma_decimal_text_plain(v.major as nat);
    lemma_decimal_text_plain(v.minor as nat);
    lemma_decimal_text_plain(v.patch as nat);
    let text = version_text(v);
    match v.rc {
        Some(n) => {
            let d = decimal_text(n as nat);
            lemma_decimal_text_plain(n as nat);
            assert(text =~= core + "-rc"@ + d);
            assert forall|j: int| 0 <= j < core.len() implies !occurs_at(text, "-rc"@, j) by {
                if occurs_at(text, "-rc"@, j) {
                    assert(text.subrange(j, j + 3)[0] == text[j]);
                    assert(text[j] == core[j]);
                    assert(core.contains('-'));
                }
            }
            assert(occurs_at(text, "-rc"@, core.len() as int)) by {
                assert(text.subrange(core.len() as int, core.len() as int + 3) =~= "-rc"@);
            }
            lemma_find_from_first(text, "-rc"@, 0, core.len() as int);
            assert(text.skip(core.len() as int + 3) =~= d);
            assert(text.take(core.len() as int) =~= core);
        },
        None => {
            assert(text =~= core);
            assert forall|j: int| 0 <= j implies !occurs_at(text, "-rc"@, j) by {
                if occurs_at(text, "-rc"@, j) {
                    assert(text.subrange(j, j + 3)[0] == text[j]);
                    assert(core.contains('-'));
                }
            }
            lemma_find_from_none(text, "-rc"@, 0);
        },
    }
}

/// A text without a dash holds no `-rc` and is not a full version unless it
/// splits into three parts.
proof fn lemma_dashless_not_version(s: Seq<char>)
    requires
        !s.contains('-'),
        split_char(s, '.').len() != 3,
    ensures
        parse_version(s) is Err,
{
    reveal_strlit("-rc");
    assert forall|j: int| 0 <= j implies !occurs_at(s, "-rc"@, j) by {
        if occurs_at(s, "-rc"@, j) {
            assert(s.subrange(j, j + 3)[0] == s[j]);
        }
    }
    lemma_find_from_none(s, "-rc"@, 0);
}

/// A number written alone, or two numbers joined by a dot, is a version
/// prefix naming exactly those numbers, and not a full version: `21` names
/// major 21; `14.1` names major 14 and minor 1.
pub proof fn law_prefix_text(major: u32, minor: u32)
    ensures
        parse_version(decimal_text(major as nat)) is Err,
        parse_prefix(decimal_text(major as nat)) == Ok::<VersionPrefix, Seq<char>>(
            VersionPrefix { major, minor: None, patch: None },
        ),
        parse_version(decimal_text(major as nat) + "."@ + decimal_text(minor as nat)) is Err,
        parse_prefix(decimal_text(major as nat) + "."@ + decimal_text(minor as nat)) == Ok::<
            VersionPrefix,
            Seq<char>,
        >(VersionPrefix { major, minor: Some(minor), patch: None }),
{
    reveal_strlit(".");
    let a = decimal_text(major as nat);
    let b = decimal_text(minor as nat);
    lemma_decimal_text_plain(major as nat);
    lemma_decimal_text_plain(minor as nat);
    lemma_split_char_no_sep(a, '.');
    lemma_dashless_not_version(a);
    lemma_split_char_push_sep(a, '.');
    assert(a + "."@ =~= a.push('.'));
    lemma_split_char_append(a + "."@, b, '.');
    let t = a + "."@ + b;
    assert(split_char(t, '.') =~= seq![a, b]);
    assert(!t.contains('-')) by {
        if t.contains('-') {
            let k = choose|k: int| 0 <= k < t.len() && t[k] == '-';
            if k < a.len() {
                assert(a[k] == '-');
            } else if k == a.len() {
                assert(t[k] == '.');
            } else {
                assert(b[k - a.len() - 1] == '-');
            }
        }
    }
    lemma_dashless_not_version(t);
}

} // verus!
