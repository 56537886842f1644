//! Character-level building blocks: decimal numbers, searching, splitting.
use vstd::prelude::*;

verus! {

/// An ASCII decimal digit.
pub open spec fn is_digit(c: char) -> bool {
    '0' <= c && c <= '9'
}

/// Every character of `s` is an ASCII decimal digit.
pub open spec fn all_digits(s: Seq<char>) -> bool {
    forall|i: int| 0 <= i < s.len() ==> #[trigger] is_digit(s[i])
}

/// The numeric value of a digit character.
pub open spec fn digit_value(c: char) -> nat {
    (c as int - '0' as int) as nat
}

/// The character that writes the digit `d` (for `d < 10`).
pub open spec fn digit_char(d: nat) -> char {
    (d + '0' as int) as char
}

/// The number that the decimal digits `s` denote (most significant first).
pub open spec fn decimal_value(s: Seq<char>) -> nat
    decreases s.len(),
{
    if s.len() == 0 {
        0
    } else {
        decimal_value(s.drop_last()) * 10 + digit_value(s.last())
    }
}

/// The shortest decimal text of `n`, as `u32::to_string` writes it.
pub open spec fn decimal_text(n: nat) -> Seq<char>
    decreases n,
{
    if n < 10 {
        seq![digit_char(n)]
    } else {
        decimal_text(n / 10).push(digit_char(n % 10))
    }
}

/// The strings as values: the text of a `String` result.
pub open spec fn text_result<T>(r: Result<T, String>) -> Result<T, Seq<char>> {
    match r {
        Ok(v) => Ok(v),
        Err(e) => Err(e@),
    }
}

/// A text result as values: the text of either side.
pub open spec fn string_result(r: Result<String, String>) -> Result<Seq<char>, Seq<char>> {
    match r {
        Ok(v) => Ok(v@),
        Err(e) => Err(e@),
    }
}

/// `pat` occurs in `s` starting at index `i`.
pub open spec fn occurs_at(s: Seq<char>, pat: Seq<char>, i: int) -> bool {
    0 <= i && i + pat.len() <= s.len() && s.subrange(i, i + pat.len()) =~= pat
}

/// The first index at or after `start` where `pat` occurs in `s`.
pub open spec fn find_from(s: Seq<char>, pat: Seq<char>, start: int) -> Option<int>
    decreases s.len() - start,
{
    if start < 0 || start + pat.len() > s.len() {
        None
    } else if occurs_at(s, pat, start) {
        Some(start)
    } else {
        find_from(s, pat, start + 1)
    }
}

/// A match that the search reports is a real occurrence, at or after the start.
pub proof fn lemma_find_from_occurs(s: Seq<char>, pat: Seq<char>, start: int)
    ensures
        find_from(s, pat, start) matches Some(i) ==> start <= i && occurs_at(s, pat, i),
    decreases s.len() - start,
{
    if !(start < 0 || start + pat.len() > s.len()) && !occurs_at(s, pat, start) {
        lemma_find_from_occurs(s, pat, start + 1);
    }
}

/// The first index where `pat` occurs in `s`, as `str::find` reports it.
pub open spec fn find(s: Seq<char>, pat: Seq<char>) -> Option<int> {
    find_from(s, pat, 0)
}

/// The pieces of `s` between occurrences of `sep`, as `str::split` with a
/// character separator yields them: always at least one piece.
pub open spec fn split_char(s: Seq<char>, sep: char) -> Seq<Seq<char>>
    decreases s.len(),
{
    if s.len() == 0 {
        seq![Seq::<char>::empty()]
    } else {
        let prev = split_char(s.drop_last(), sep);
        if s.last() == sep {
            prev.push(Seq::<char>::empty())
        } else {
            prev.update(prev.len() - 1, prev.last().push(s.last()))
        }
    }
}

pub proof fn lemma_split_char_nonempty(s: Seq<char>, sep: char)
    ensures
        split_char(s, sep).len() >= 1,
    decreases s.len(),
{
    if s.len() > 0 {
        lemma_split_char_nonempty(s.drop_last(), sep);
    }
}

/// Without the separator in it, the text is a single piece.
pub proof fn lemma_split_char_no_sep(s: Seq<char>, sep: char)
    requires
        !s.contains(sep),
    ensures
        split_char(s, sep) =~= seq![s],
    decreases s.len(),
{
    if s.len() > 0 {
        assert(!s.drop_last().contains(sep)) by {
            if s.drop_last().contains(sep) {
                let k = choose|k: int| 0 <= k < s.drop_last().len() && s.drop_last()[k] == sep;
                assert(s[k] == sep);
            }
        }
        lemma_split_char_no_sep(s.drop_last(), sep);
        let prev = split_char(s.drop_last(), sep);
        assert(prev.len() == 1 && prev.last() == s.drop_last());
        assert(s.last() != sep) by {
            assert(s[s.len() - 1] == s.last());
        }
        assert(s.drop_last().push(s.last()) =~= s);
        assert(split_char(s, sep) == prev.update(0, prev.last().push(s.last())));
    } else {
        assert(s =~= Seq::<char>::empty());
    }
}

/// Pieces joined back with the separator between them.
pub open spec fn join_pieces(pieces: Seq<Seq<char>>, sep: char) -> Seq<char>
    decreases pieces.len(),
{
    if pieces.len() <= 1 {
        if pieces.len() == 1 { pieces[0] } else { Seq::empty() }
    } else {
        join_pieces(pieces.drop_last(), sep) + seq![sep] + pieces.last()
    }
}

/// Joining the pieces of a split with the separator gives back the text.
pub proof fn lemma_split_char_join(s: Seq<char>, sep: char)
    ensures
        join_pieces(split_char(s, sep), sep) =~= s,
    decreases s.len(),
{
    if s.len() > 0 {
        let prev = split_char(s.drop_last(), sep);
        lemma_split_char_join(s.drop_last(), sep);
        lemma_split_char_nonempty(s.drop_last(), sep);
        if s.last() == sep {
            assert(prev.push(Seq::<char>::empty()).drop_last() =~= prev);
            assert(s.drop_last().push(sep) =~= s);
        } else {
            let upd = prev.update(prev.len() - 1, prev.last().push(s.last()));
            if prev.len() == 1 {
                assert(s.drop_last().push(s.last()) =~= s);
            } else {
                assert(upd.drop_last() =~= prev.drop_last());
                assert(s.drop_last().push(s.last()) =~= s);
            }
        }
    }
}

/// Appending text free of the separator only lengthens the last piece.
pub proof fn lemma_split_char_append(x: Seq<char>, y: Seq<char>, sep: char)
    requires
        !y.contains(sep),
    ensures
        split_char(x + y, sep) =~= split_char(x, sep).update(
            split_char(x, sep).len() - 1,
            split_char(x, sep).last() + y,
        ),
    decreases y.len(),
{
    lemma_split_char_nonempty(x, sep);
    if y.len() == 0 {
        assert(x + y =~= x);
        assert(split_char(x, sep).last() + y =~= split_char(x, sep).last());
    } else {
        let y0 = y.drop_last();
        assert(!y0.contains(sep)) by {
            if y0.contains(sep) {
                let k = choose|k: int| 0 <= k < y0.len() && y0[k] == sep;
                assert(y[k] == sep);
            }
        }
        lemma_split_char_append(x, y0, sep);
        assert((x + y).drop_last() =~= x + y0);
        assert((x + y).last() == y.last());
        assert(y.last() != sep) by {
            assert(y[y.len() - 1] == y.last());
        }
        lemma_split_char_nonempty(x + y0, sep);
        assert((split_char(x, sep).last() + y0).push(y.last()) =~= split_char(x, sep).last() + y);
    }
}

/// A separator at the end starts a new, empty piece.
pub proof fn lemma_split_char_push_sep(x: Seq<char>, sep: char)
    ensures
        split_char(x.push(sep), sep) =~= split_char(x, sep).push(Seq::<char>::empty()),
{
    assert(x.push(sep).drop_last() =~= x);
}

/// The search finds `k` when nothing matches between the start and `k`.
pub proof fn lemma_find_from_first(s: Seq<char>, pat: Seq<char>, start: int, k: int)
    requires
        0 <= start <= k,
        occurs_at(s, pat, k),
        forall|j: int| start <= j < k ==> !occurs_at(s, pat, j),
    ensures
        find_from(s, pat, start) == Some(k),
    decreases k - start,
{
    if start < k {
        lemma_find_from_first(s, pat, start + 1, k);
    }
}

/// The search finds nothing when nothing matches from the start on.
pub proof fn lemma_find_from_none(s: Seq<char>, pat: Seq<char>, start: int)
    requires
        0 <= start,
        forall|j: int| start <= j ==> !occurs_at(s, pat, j),
    ensures
        find_from(s, pat, start) == None::<int>,
    decreases s.len() - start,
{
    if start + pat.len() <= s.len() {
        lemma_find_from_none(s, pat, start + 1);
    }
}

pub proof fn lemma_decimal_value_step(s: Seq<char>, j: int)
    requires
        0 <= j < s.len(),
    ensures
        decimal_value(s.take(j + 1)) == decimal_value(s.take(j)) * 10 + digit_value(s[j]),
{
    assert(s.take(j + 1).drop_last() =~= s.take(j));
}

/// A longer run of digits never denotes a smaller number.
pub proof fn lemma_decimal_value_prefix_le(s: Seq<char>, j: int)
    requires
        0 <= j <= s.len(),
        all_digits(s),
    ensures
        decimal_value(s.take(j)) <= decimal_value(s),
    decreases s.len() - j,
{
    if j < s.len() {
        lemma_decimal_value_step(s, j);
        assert(is_digit(s[j]));
        lemma_decimal_value_prefix_le(s, j + 1);
    } else {
        assert(s.take(j) =~= s);
    }
}

/// A digit written and read back.
pub proof fn lemma_digit_char(d: nat)
    requires
        d < 10,
    ensures
        is_digit(digit_char(d)),
        digit_value(digit_char(d)) == d,
{
    assert(digit_char(d) as int == d + 48);
}

/// The text of a number is made of digits and denotes that number.
pub proof fn lemma_decimal_text_roundtrip(n: nat)
    ensures
        all_digits(decimal_text(n)),
        decimal_text(n).len() >= 1,
        decimal_value(decimal_text(n)) == n,
    decreases n,
{
    if n < 10 {
        lemma_digit_char(n);
        assert(decimal_text(n).drop_last() =~= Seq::<char>::empty());
        assert(decimal_value(Seq::<char>::empty()) == 0);
        assert(decimal_text(n).last() == digit_char(n));
    } else {
        lemma_decimal_text_roundtrip(n / 10);
        lemma_digit_char(n % 10);
        let t = decimal_text(n);
        assert(t.drop_last() =~= decimal_text(n / 10));
        assert(t.last() == digit_char(n % 10));
        assert(decimal_value(t) == decimal_value(t.drop_last()) * 10 + digit_value(t.last()));
        assert(n == (n / 10) * 10 + n % 10);
        assert forall|i: int| 0 <= i < t.len() implies #[trigger] is_digit(t[i]) by {
            if i < t.len() - 1 {
                assert(t[i] == decimal_text(n / 10)[i]);
            }
        }
    }
}

/// The text of a number does not start with a zero unless it is `0`.
pub proof fn lemma_decimal_text_no_leading_zero(n: nat)
    ensures
        decimal_text(n)[0] == '0' ==> n == 0,
    decreases n,
{
    if n >= 10 {
        lemma_decimal_text_no_leading_zero(n / 10);
        lemma_decimal_text_roundtrip(n / 10);
        assert(decimal_text(n)[0] == decimal_text(n / 10)[0]);
    }
}

/// A run of digits without a superfluous leading zero is the text of its value.
pub proof fn lemma_decimal_value_text(s: Seq<char>)
    requires
        s.len() >= 1,
        all_digits(s),
        s[0] != '0' || s.len() == 1,
    ensures
        decimal_text(decimal_value(s)) =~= s,
    decreases s.len(),
{
    if s.len() == 1 {
        assert(s.drop_last() =~= Seq::<char>::empty());
        assert(decimal_value(Seq::<char>::empty()) == 0);
        assert(is_digit(s[0]));
        assert(s.last() == s[0]);
        let v = decimal_value(s);
        assert(v == digit_value(s[0]));
        assert(digit_char(v) as int == v + 48);
        assert(decimal_text(v) =~= seq![digit_char(v)]);
    } else {
        let p = s.drop_last();
        assert(all_digits(p)) by {
            assert forall|i: int| 0 <= i < p.len() implies #[trigger] is_digit(p[i]) by {
                assert(is_digit(s[i]));
            }
        }
        assert(p[0] == s[0]);
        lemma_decimal_value_text(p);
        lemma_decimal_text_no_leading_zero(decimal_value(p));
        assert(is_digit(s[s.len() - 1]));
        assert(decimal_value(p) >= 1) by {
            lemma_decimal_value_text_positive(p);
        }
        let n = decimal_value(s);
        assert(n == decimal_value(p) * 10 + digit_value(s.last()));
        assert(n / 10 == decimal_value(p));
        assert(n % 10 == digit_value(s.last()));
        assert(digit_char(n % 10) as int == n % 10 + 48);
        assert(digit_char(n % 10) == s.last());
        assert(decimal_text(n) == decimal_text(n / 10).push(digit_char(n % 10)));
        assert(p.push(s.last()) =~= s);
    }
}

proof fn lemma_decimal_value_text_positive(p: Seq<char>)
    requires
        p.len() >= 1,
        all_digits(p),
        p[0] != '0',
    ensures
        decimal_value(p) >= 1,
    decreases p.len(),
{
    if p.len() == 1 {
        assert(is_digit(p[0]));
    } else {
        let q = p.drop_last();
        assert(q[0] == p[0]);
        assert(all_digits(q)) by {
            assert forall|i: int| 0 <= i < q.len() implies #[trigger] is_digit(q[i]) by {
                assert(is_digit(p[i]));
            }
        }
        lemma_decimal_value_text_positive(q);
    }
}

/// Same characters in both strings.
pub fn same_text(a: &str, b: &str) -> (r: bool)
    ensures
        r == (a@ == b@),
{
    let x = a.to_owned();
    let y = b.to_owned();
    x == y
}

/// A new `String` holding `prefix` followed by `rest`.
pub fn join2(prefix: &str, rest: &str) -> (r: String)
    ensures
        r@ == prefix@ + rest@,
{
    let mut m = String::from_str(prefix);
    m.append(rest);
    m
}

/// The digit `d` as a one-character string.
pub fn digit_string(d: u32) -> (r: String)
    requires
        d < 10,
    ensures
        r@ == seq![digit_char(d as nat)],
{
    let digits = "0123456789";
    proof {
        reveal_strlit("0123456789");
    }
    let one = digits.substring_char(d as usize, d as usize + 1);
    assert(one@ =~= seq![digits@[d as int]]);
    String::from_str(one)
}

/// The decimal text of `n`, as `n.to_string()` writes it.
pub fn decimal_string(n: u32) -> (r: String)
    ensures
        r@ == decimal_text(n as nat),
    decreases n,
{
    if n < 10 {
        digit_string(n)
    } else {
        let mut head = decimal_string(n / 10);
        let last = digit_string(n % 10);
        head.append(last.as_str());
        head
    }
}

/// The decimal text of a 64-bit number.
pub fn decimal_string_u64(n: u64) -> (r: String)
    ensures
        r@ == decimal_text(n as nat),
    decreases n,
{
    if n < 10 {
        digit_string(n as u32)
    } else {
        let mut head = decimal_string_u64(n / 10);
        let last = digit_string((n % 10) as u32);
        head.append(last.as_str());
        head
    }
}

/// Whether every character of `s` is a decimal digit.
pub fn is_all_digits(s: &str) -> (r: bool)
    ensures
        r == all_digits(s@),
{
    let len = s.unicode_len();
    let mut i: usize = 0;
    while i < len
        invariant
            len == s@.len(),
            i <= len,
            forall|k: int| 0 <= k < i ==> #[trigger] is_digit(s@[k]),
        decreases len - i,
    {
        let c = s.get_char(i);
        if !('0' <= c && c <= '9') {
            assert(!is_digit(s@[i as int]));
            return false;
        }
        i = i + 1;
    }
    true
}

/// The value of a non-empty run of digits, or `None` where it exceeds `u32::MAX`.
pub fn decimal_u32(s: &str) -> (r: Option<u32>)
    requires
        all_digits(s@),
    ensures
        match r {
            Some(n) => n as nat == decimal_value(s@),
            None => decimal_value(s@) > u32::MAX,
        },
{
    let len = s.unicode_len();
    let mut acc: u64 = 0;
    let mut i: usize = 0;
    assert(s@.take(0) =~= Seq::<char>::empty());
    while i < len
        invariant
            len == s@.len(),
            i <= len,
            all_digits(s@),
            acc as nat == decimal_value(s@.take(i as int)),
            acc <= u32::MAX,
        decreases len - i,
    {
        let c = s.get_char(i);
        assert(is_digit(s@[i as int]));
        let d: u32 = (c as u32) - ('0' as u32);
        proof {
            lemma_decimal_value_step(s@, i as int);
        }
        let next: u64 = acc * 10 + d as u64;
        if next > 4294967295u64 {
            proof {
                lemma_decimal_value_prefix_le(s@, i + 1);
            }
            return None;
        }
        acc = next;
        i = i + 1;
    }
    assert(s@.take(len as int) =~= s@);
    Some(acc as u32)
}

/// The first index where the character `c` occurs in `s`.
pub fn find_char(s: &str, c: char) -> (r: Option<usize>)
    ensures
        match r {
            Some(i) => find(s@, seq![c]) == Some(i as int),
            None => find(s@, seq![c]) == None::<int>,
        },
        match r {
            Some(i) => i < s@.len() && s@[i as int] == c && forall|k: int|
                0 <= k < i ==> s@[k] != c,
            None => !s@.contains(c),
        },
{
    let len = s.unicode_len();
    let mut i: usize = 0;
    while i < len
        invariant
            len == s@.len(),
            i <= len,
            forall|k: int| 0 <= k < i ==> s@[k] != c,
            find(s@, seq![c]) == find_from(s@, seq![c], i as int),
        decreases len - i,
    {
        if s.get_char(i) == c {
            assert(occurs_at(s@, seq![c], i as int)) by {
                assert(s@.subrange(i as int, i + 1) =~= seq![c]);
            }
            return Some(i);
        }
        assert(!occurs_at(s@, seq![c], i as int)) by {
            if occurs_at(s@, seq![c], i as int) {
                assert(s@.subrange(i as int, i + 1)[0] == s@[i as int]);
            }
        }
        i = i + 1;
    }
    assert(!s@.contains(c)) by {
        if s@.contains(c) {
            let k = choose|k: int| 0 <= k < s@.len() && s@[k] == c;
            assert(s@[k] == c);
        }
    }
    None
}

/// Whether the character `c` occurs in `s`.
pub fn contains_char(s: &str, c: char) -> (r: bool)
    ensures
        r == s@.contains(c),
{
    match find_char(s, c) {
        Some(i) => {
            assert(s@[i as int] == c);
            true
        },
        None => false,
    }
}

/// The first index where `pat` occurs in `s`, as `str::find` reports it
/// (counted in characters).
pub fn find_str(s: &str, pat: &str) -> (r: Option<usize>)
    ensures
        match r {
            Some(i) => find(s@, pat@) == Some(i as int) && occurs_at(s@, pat@, i as int),
            None => find(s@, pat@) == None::<int>,
        },
{
    proof {
        lemma_find_from_occurs(s@, pat@, 0);
    }
    let len = s.unicode_len();
    let plen = pat.unicode_len();
    if plen > len {
        assert(find_from(s@, pat@, 0) == None::<int>);
        return None;
    }
    let mut i: usize = 0;
    while i <= len - plen
        invariant
            len == s@.len(),
            plen == pat@.len(),
            plen <= len,
            i <= len - plen + 1,
            find(s@, pat@) == find_from(s@, pat@, i as int),
        decreases len - i,
    {
        let piece = s.substring_char(i, i + plen);
        if same_text(piece, pat) {
            return Some(i);
        }
        i = i + 1;
    }
    None
}

/// The pieces of `s` between occurrences of `sep`, as `str::split` yields them.
pub fn split_on_char<'a>(s: &'a str, sep: char) -> (r: Vec<&'a str>)
    ensures
        r@.len() == split_char(s@, sep).len(),
        forall|i: int| 0 <= i < r@.len() ==> #[trigger] r@[i]@ == split_char(s@, sep)[i],
{
    let len = s.unicode_len();
    let mut parts: Vec<&'a str> = Vec::new();
    let mut start: usize = 0;
    let mut i: usize = 0;
    assert(s@.take(0) =~= Seq::<char>::empty());
    while i < len
        invariant
            len == s@.len(),
            start <= i <= len,
            parts@.len() + 1 == split_char(s@.take(i as int), sep).len(),
            forall|k: int|
                0 <= k < parts@.len() ==> #[trigger] parts@[k]@ == split_char(s@.take(i as int), sep)[k],
            s@.subrange(start as int, i as int) == split_char(s@.take(i as int), sep).last(),
        decreases len - i,
    {
        let c = s.get_char(i);
        let ghost prev = split_char(s@.take(i as int), sep);
        assert(s@.take(i + 1).drop_last() =~= s@.take(i as int));
        assert(s@.take(i + 1).last() == c);
        if c == sep {
            let piece = s.substring_char(start, i);
            parts.push(piece);
            start = i + 1;
            assert(s@.subrange(start as int, i + 1) =~= Seq::<char>::empty());
        } else {
            assert(s@.subrange(start as int, i + 1) =~= s@.subrange(start as int, i as int).push(c));
        }
        i = i + 1;
    }
    let last = s.substring_char(start, len);
    parts.push(last);
    assert(s@.take(len as int) =~= s@);
    parts
}

} // verus!
