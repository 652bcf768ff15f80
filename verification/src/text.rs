//! Character-level rules: ASCII case folding, Unicode white-space
//! trimming, substring search and decimal parsing of unsigned integers.

use vstd::prelude::*;

verus! {

/// The characters of `s`, in order.
pub fn chars_of(s: &str) -> (v: Vec<char>)
    ensures
        v@ == s@,
{
    let mut v: Vec<char> = Vec::new();
    for c in it: s.chars()
        invariant
            v@ == it.seq().take(it.index() as int),
    {
        v.push(c);
    }
    v
}

/// ASCII lower-case mapping of one character; other characters are kept.
pub open spec fn spec_ascii_lower(c: char) -> char {
    if 'A' <= c && c <= 'Z' {
        ((c as u32) + 32) as char
    } else {
        c
    }
}

/// ASCII lower-case mapping of a character sequence.
pub open spec fn spec_ascii_lower_seq(s: Seq<char>) -> Seq<char> {
    s.map_values(|c: char| spec_ascii_lower(c))
}

/// `a` and `b` match when ASCII letters are compared without case.
pub open spec fn spec_ascii_eq_ignore_case(a: Seq<char>, b: Seq<char>) -> bool {
    spec_ascii_lower_seq(a) == spec_ascii_lower_seq(b)
}

/// Lower-cases one ASCII letter.
pub fn ascii_lower(c: char) -> (r: char)
    ensures
        r == spec_ascii_lower(c),
{
    if 'A' <= c && c <= 'Z' {
        let code = (c as u32) + 32;
        assert(code < 0xD800);
        (code as u8) as char
    } else {
        c
    }
}

/// ASCII lower-case copy of `s`.
pub fn ascii_lower_all(s: &Vec<char>) -> (r: Vec<char>)
    ensures
        r@ == spec_ascii_lower_seq(s@),
{
    let mut r: Vec<char> = Vec::new();
    let mut i: usize = 0;
    while i < s.len()
        invariant
            i <= s.len(),
            r@ =~= spec_ascii_lower_seq(s@.subrange(0, i as int)),
        decreases s.len() - i,
    {
        let c = ascii_lower(s[i]);
        r.push(c);
        i = i + 1;
        assert(r@ =~= spec_ascii_lower_seq(s@.subrange(0, i as int)));
    }
    assert(s@.subrange(0, s.len() as int) =~= s@);
    r
}

/// Case-insensitive (ASCII) equality of two strings.
pub fn ascii_eq_ignore_case(a: &str, b: &str) -> (r: bool)
    ensures
        r == spec_ascii_eq_ignore_case(a@, b@),
{
    let la = ascii_lower_all(&chars_of(a));
    let lb = ascii_lower_all(&chars_of(b));
    if la.len() != lb.len() {
        assert(spec_ascii_lower_seq(a@).len() != spec_ascii_lower_seq(b@).len());
        return false;
    }
    let mut i: usize = 0;
    while i < la.len()
        invariant
            i <= la.len(),
            la.len() == lb.len(),
            la@ == spec_ascii_lower_seq(a@),
            lb@ == spec_ascii_lower_seq(b@),
            forall|k: int| 0 <= k < i ==> la@[k] == lb@[k],
        decreases la.len() - i,
    {
        if la[i] != lb[i] {
            return false;
        }
        i = i + 1;
    }
    assert(la@ =~= lb@);
    true
}

/// `pat` occurs in `s` starting at index `i`.
pub open spec fn occurs_at(s: Seq<char>, pat: Seq<char>, i: int) -> bool {
    0 <= i && i + pat.len() <= s.len() && s.subrange(i, i + pat.len()) == pat
}

/// `pat` occurs somewhere in `s`.
pub open spec fn spec_contains(s: Seq<char>, pat: Seq<char>) -> bool {
    exists|i: int| occurs_at(s, pat, i)
}

/// Whether `pat` occurs in `s`.
pub fn contains_chars(s: &Vec<char>, pat: &Vec<char>) -> (r: bool)
    ensures
        r == spec_contains(s@, pat@),
{
    if pat.len() > s.len() {
        assert forall|i: int| !occurs_at(s@, pat@, i) by {}
        return false;
    }
    let last = s.len() - pat.len();
    let mut i: usize = 0;
    while i <= last
        invariant
            last == s.len() - pat.len(),
            pat.len() <= s.len(),
            forall|k: int| 0 <= k < i ==> !occurs_at(s@, pat@, k),
        decreases last + 1 - i,
    {
        let mut j: usize = 0;
        let mut same = true;
        while j < pat.len()
            invariant
                i <= last,
                last == s.len() - pat.len(),
                j <= pat.len(),
                same <==> forall|k: int| 0 <= k < j ==> s@[i + k] == pat@[k],
            decreases pat.len() - j,
        {
            if s[i + j] != pat[j] {
                same = false;
            }
            j = j + 1;
        }
        if same {
            assert(s@.subrange(i as int, i + pat.len()) =~= pat@);
            assert(occurs_at(s@, pat@, i as int));
            return true;
        }
        assert(!occurs_at(s@, pat@, i as int)) by {
            if occurs_at(s@, pat@, i as int) {
                let k = choose|k: int| 0 <= k < pat.len() && s@[i + k] != pat@[k];
                assert(s@.subrange(i as int, i + pat.len())[k] == pat@[k]);
            }
        }
        i = i + 1;
    }
    assert forall|k: int| !occurs_at(s@, pat@, k) by {
        if 0 <= k && k < i {
        }
    }
    false
}

/// Whether `pat` (a literal) occurs in `s`.
pub fn contains_str(s: &Vec<char>, pat: &str) -> (r: bool)
    ensures
        r == spec_contains(s@, pat@),
{
    let p = chars_of(pat);
    contains_chars(s, &p)
}

/// The Unicode `White_Space` property, which `str::trim` removes.
pub open spec fn spec_is_white_space(c: char) -> bool {
    ('\u{9}' <= c && c <= '\u{d}') || c == ' ' || c == '\u{85}' || c == '\u{a0}'
        || c == '\u{1680}' || ('\u{2000}' <= c && c <= '\u{200a}') || c == '\u{2028}'
        || c == '\u{2029}' || c == '\u{202f}' || c == '\u{205f}' || c == '\u{3000}'
}

/// Whether `c` is Unicode white space.
pub fn is_white_space(c: char) -> (r: bool)
    ensures
        r == spec_is_white_space(c),
{
    ('\u{9}' <= c && c <= '\u{d}') || c == ' ' || c == '\u{85}' || c == '\u{a0}'
        || c == '\u{1680}' || ('\u{2000}' <= c && c <= '\u{200a}') || c == '\u{2028}'
        || c == '\u{2029}' || c == '\u{202f}' || c == '\u{205f}' || c == '\u{3000}'
}

/// `s` with leading white space removed.
pub open spec fn spec_trim_start(s: Seq<char>) -> Seq<char>
    decreases s.len(),
{
    if s.len() > 0 && spec_is_white_space(s[0]) {
        spec_trim_start(s.drop_first())
    } else {
        s
    }
}

/// `s` with trailing white space removed.
pub open spec fn spec_trim_end(s: Seq<char>) -> Seq<char>
    decreases s.len(),
{
    if s.len() > 0 && spec_is_white_space(s.last()) {
        spec_trim_end(s.drop_last())
    } else {
        s
    }
}

/// `s` with leading and trailing white space removed.
pub open spec fn spec_trim(s: Seq<char>) -> Seq<char> {
    spec_trim_end(spec_trim_start(s))
}

proof fn lemma_trim_start_skip(s: Seq<char>, i: int)
    requires
        0 <= i <= s.len(),
        forall|k: int| 0 <= k < i ==> spec_is_white_space(#[trigger] s[k]),
    ensures
        spec_trim_start(s) == spec_trim_start(s.subrange(i, s.len() as int)),
    decreases i,
{
    if i > 0 {
        assert(s.drop_first().subrange(i - 1, s.drop_first().len() as int) =~= s.subrange(
            i,
            s.len() as int,
        ));
        lemma_trim_start_skip(s.drop_first(), i - 1);
    } else {
        assert(s.subrange(0, s.len() as int) =~= s);
    }
}

proof fn lemma_trim_end_skip(s: Seq<char>, j: int)
    requires
        0 <= j <= s.len(),
        forall|k: int| j <= k < s.len() ==> spec_is_white_space(#[trigger] s[k]),
    ensures
        spec_trim_end(s) == spec_trim_end(s.subrange(0, j)),
    decreases s.len() - j,
{
    if j < s.len() {
        assert(s.drop_last().subrange(0, j) =~= s.subrange(0, j));
        lemma_trim_end_skip(s.drop_last(), j);
    } else {
        assert(s.subrange(0, j) =~= s);
    }
}

/// `s` with leading and trailing Unicode white space removed.
pub fn trim_chars(s: &Vec<char>) -> (r: Vec<char>)
    ensures
        r@ == spec_trim(s@),
{
    let mut i: usize = 0;
    while i < s.len() && is_white_space(s[i])
        invariant
            i <= s.len(),
            forall|k: int| 0 <= k < i ==> spec_is_white_space(#[trigger] s@[k]),
        decreases s.len() - i,
    {
        i = i + 1;
    }
    proof {
        lemma_trim_start_skip(s@, i as int);
    }
    let ghost rest = s@.subrange(i as int, s.len() as int);
    assert(spec_trim_start(rest) == rest);
    let mut j: usize = s.len();
    while j > i && is_white_space(s[j - 1])
        invariant
            i <= j <= s.len(),
            forall|k: int| j <= k < s.len() ==> spec_is_white_space(#[trigger] s@[k]),
        decreases j,
    {
        j = j - 1;
    }
    proof {
        assert forall|k: int| j - i <= k < rest.len() implies spec_is_white_space(
            #[trigger] rest[k],
        ) by {
            assert(rest[k] == s@[k + i]);
        }
        lemma_trim_end_skip(rest, j - i);
        assert(rest.subrange(0, j - i) =~= s@.subrange(i as int, j as int));
    }
    let mut r: Vec<char> = Vec::new();
    let mut k: usize = i;
    while k < j
        invariant
            i <= k <= j,
            j <= s.len(),
            r@ =~= s@.subrange(i as int, k as int),
        decreases j - k,
    {
        r.push(s[k]);
        k = k + 1;
        assert(r@ =~= s@.subrange(i as int, k as int));
    }
    r
}

/// Value of an ASCII decimal digit.
pub open spec fn digit_value(c: char) -> int {
    (c as u32) - ('0' as u32)
}

/// Whether `c` is an ASCII decimal digit.
pub open spec fn is_digit(c: char) -> bool {
    '0' <= c && c <= '9'
}

/// The decimal value of a sequence of digits.
pub open spec fn decimal_value(ds: Seq<char>) -> int
    decreases ds.len(),
{
    if ds.len() == 0 {
        0
    } else {
        decimal_value(ds.drop_last()) * 10 + digit_value(ds.last())
    }
}

/// The digits that follow an optional leading `+`.
pub open spec fn unsigned_digits(s: Seq<char>) -> Seq<char> {
    if s.len() > 0 && s[0] == '+' {
        s.drop_first()
    } else {
        s
    }
}

/// What parsing an unsigned integer no larger than `max` gives: an
/// optional `+` followed by at least one ASCII digit, and a value in range.
pub open spec fn spec_parse_unsigned(s: Seq<char>, max: int) -> Option<int> {
    let ds = unsigned_digits(s);
    if ds.len() == 0 || !(forall|k: int| 0 <= k < ds.len() ==> is_digit(#[trigger] ds[k])) {
        None
    } else if decimal_value(ds) > max {
        None
    } else {
        Some(decimal_value(ds))
    }
}

pub(crate) proof fn lemma_decimal_prefix(ds: Seq<char>, i: int)
    requires
        0 <= i <= ds.len(),
        forall|k: int| 0 <= k < ds.len() ==> is_digit(#[trigger] ds[k]),
    ensures
        decimal_value(ds.subrange(0, i)) <= decimal_value(ds),
        0 <= decimal_value(ds),
    decreases ds.len(),
{
    if ds.len() == 0 {
    } else if i == ds.len() {
        assert(ds.subrange(0, i) =~= ds);
        lemma_decimal_prefix(ds.drop_last(), i - 1);
    } else {
        lemma_decimal_prefix(ds.drop_last(), i);
        assert(ds.drop_last().subrange(0, i) =~= ds.subrange(0, i));
    }
}

/// Parses an unsigned decimal integer that may not exceed `max`.
pub fn parse_unsigned_chars(s: &Vec<char>, max: u64) -> (r: Option<u64>)
    ensures
        match spec_parse_unsigned(s@, max as int) {
            Some(v) => r == Some(v as u64) && 0 <= v <= max,
            None => r is None,
        },
        r matches Some(x) ==> x <= max,
{
    let start: usize = if s.len() > 0 && s[0] == '+' { 1 } else { 0 };
    let ghost ds = unsigned_digits(s@);
    assert(ds =~= s@.subrange(start as int, s.len() as int));
    if start == s.len() {
        return None;
    }
    let mut acc: u64 = 0;
    let mut overflow = false;
    let mut i: usize = start;
    while i < s.len()
        invariant
            start <= i <= s.len(),
            ds == unsigned_digits(s@),
            ds =~= s@.subrange(start as int, s.len() as int),
            forall|k: int| start <= k < i ==> is_digit(#[trigger] s@[k]),
            !overflow ==> acc == decimal_value(s@.subrange(start as int, i as int)),
            !overflow ==> acc <= max,
            overflow ==> decimal_value(s@.subrange(start as int, i as int)) > max,
        decreases s.len() - i,
    {
        let c = s[i];
        if !('0' <= c && c <= '9') {
            assert(!is_digit(ds[i - start]));
            return None;
        }
        let d = (c as u32 - '0' as u32) as u64;
        let ghost prefix = s@.subrange(start as int, i + 1);
        assert(prefix.drop_last() =~= s@.subrange(start as int, i as int));
        assert(prefix.last() == c);
        if !overflow {
            let wide: u128 = (acc as u128) * 10 + (d as u128);
            if wide > max as u128 {
                overflow = true;
            } else {
                acc = wide as u64;
            }
        } else {
            proof {
                let pre = s@.subrange(start as int, i as int);
                assert forall|k: int| 0 <= k < pre.len() implies is_digit(#[trigger] pre[k]) by {
                    assert(pre[k] == s@[start + k]);
                }
                lemma_decimal_prefix(pre, pre.len() as int);
            }
        }
        i = i + 1;
    }
    assert forall|k: int| 0 <= k < ds.len() implies is_digit(#[trigger] ds[k]) by {
        assert(ds[k] == s@[start + k]);
    }
    if overflow {
        None
    } else {
        Some(acc)
    }
}

/// `String::push`: appends one character to the end of the string.
#[verifier::external_body]
pub(crate) fn push_char_to(s: &mut String, c: char)
    ensures
        final(s)@ == old(s)@.push(c),
{
    s.push(c);
}

/// A `String` holding exactly the characters of `v`.
pub fn string_from_chars(v: &Vec<char>) -> (r: String)
    ensures
        r@ == v@,
{
    let mut r = String::new();
    let mut i: usize = 0;
    while i < v.len()
        invariant
            i <= v.len(),
            r@ =~= v@.subrange(0, i as int),
        decreases v.len() - i,
    {
        push_char_to(&mut r, v[i]);
        i = i + 1;
        assert(r@ =~= v@.subrange(0, i as int));
    }
    assert(v@.subrange(0, v.len() as int) =~= v@);
    r
}

/// The ASCII digit for a value below ten.
pub open spec fn digit_char(d: int) -> char {
    (('0' as u32) + d) as char
}

/// The decimal notation of `n`, without sign or leading zeros.
pub open spec fn spec_decimal(n: nat) -> Seq<char>
    decreases n,
{
    if n < 10 {
        seq![digit_char(n as int)]
    } else {
        spec_decimal(n / 10).push(digit_char((n % 10) as int))
    }
}

/// Appends the decimal notation of `n` to `s`.
pub fn push_decimal(s: &mut String, n: u64)
    ensures
        final(s)@ == old(s)@ + spec_decimal(n as nat),
    decreases n,
{
    if n >= 10 {
        push_decimal(s, n / 10);
    }
    let d: u8 = (n % 10) as u8;
    let c = (48u8 + d) as char;
    assert(c == digit_char((n % 10) as int));
    push_char_to(s, c);
    assert(s@ =~= old(s)@ + spec_decimal(n as nat));
}

/// The decimal notation of `n`.
pub fn decimal_string(n: u64) -> (r: String)
    ensures
        r@ == spec_decimal(n as nat),
{
    let mut r = String::new();
    push_decimal(&mut r, n);
    assert(r@ =~= spec_decimal(n as nat));
    r
}

} // verus!
