//! Character-level helpers on strings shared by the parsers of the crate.

use vstd::prelude::*;

verus! {

/// Append one character to a string, with `String::push`, which std documents
/// as appending the character to the end of the string.
#[verifier::external_body]
pub(crate) fn push_char(s: &mut String, c: char)
    ensures
        final(s)@ == old(s)@.push(c),
{
    s.push(c);
}

/// The characters of a string slice, in order.
pub fn to_chars(s: &str) -> (r: Vec<char>)
    ensures
        r@ == s@,
{
    let n = s.unicode_len();
    let mut r: Vec<char> = Vec::new();
    let mut i: usize = 0;
    while i < n
        invariant
            n == s@.len(),
            i <= n,
            r@ == s@.subrange(0, i as int),
        decreases n - i,
    {
        r.push(s.get_char(i));
        i = i + 1;
    }
    assert(r@ =~= s@);
    r
}

/// A string made of the characters of `v[from..to]`.
pub fn string_from_range(v: &[char], from: usize, to: usize) -> (r: String)
    requires
        from <= to <= v@.len(),
    ensures
        r@ == v@.subrange(from as int, to as int),
{
    let mut r = String::new();
    let mut i = from;
    while i < to
        invariant
            from <= i <= to <= v@.len(),
            r@ == v@.subrange(from as int, i as int),
        decreases to - i,
    {
        push_char(&mut r, v[i]);
        i = i + 1;
        assert(r@ =~= v@.subrange(from as int, i as int));
    }
    r
}

/// A string made of all the characters of `v`.
pub fn string_from_chars(v: &[char]) -> (r: String)
    ensures
        r@ == v@,
{
    let r = string_from_range(v, 0, v.len());
    assert(v@.subrange(0, v@.len() as int) =~= v@);
    r
}

/// Whether `c` is an ASCII lowercase letter.
pub open spec fn is_ascii_lower(c: char) -> bool {
    'a' <= c <= 'z'
}

/// Whether `c` is an ASCII uppercase letter.
pub open spec fn is_ascii_upper(c: char) -> bool {
    'A' <= c <= 'Z'
}

/// Whether `c` is an ASCII letter.
pub open spec fn is_ascii_alpha(c: char) -> bool {
    is_ascii_lower(c) || is_ascii_upper(c)
}

/// Whether `c` is an ASCII decimal digit.
pub open spec fn is_ascii_digit(c: char) -> bool {
    '0' <= c <= '9'
}

/// `c` with an ASCII uppercase letter mapped to lowercase; other characters unchanged.
pub open spec fn ascii_lower(c: char) -> char {
    if is_ascii_upper(c) {
        ((c as int) + 32) as char
    } else {
        c
    }
}

/// Whether two character sequences are equal when ASCII letters are compared
/// without regard to case.
pub open spec fn eq_ignore_ascii_case(a: Seq<char>, b: Seq<char>) -> bool {
    &&& a.len() == b.len()
    &&& forall|i: int| 0 <= i < a.len() ==> ascii_lower(#[trigger] a[i]) == ascii_lower(b[i])
}

/// Lowercases an ASCII uppercase letter and keeps any other character.
pub fn char_ascii_lower(c: char) -> (r: char)
    ensures
        r == ascii_lower(c),
{
    if 'A' <= c && c <= 'Z' {
        let n: u32 = c as u32 + 32;
        assert(0x61 <= n <= 0x7a);
        let r = char_from_ascii_code(n);
        r
    } else {
        c
    }
}

/// The ASCII character with the given code.
fn char_from_ascii_code(n: u32) -> (r: char)
    requires
        n < 128,
    ensures
        r as int == n as int,
{
    let b: u8 = n as u8;
    b as char
}

/// Whether `pat` occurs in `s` starting at position `i`.
pub open spec fn occurs_at(s: Seq<char>, pat: Seq<char>, i: int) -> bool {
    0 <= i && i + pat.len() <= s.len() && s.subrange(i, i + pat.len()) == pat
}

/// The first position at which `pat` occurs in `s`, if any.
pub open spec fn spec_find(s: Seq<char>, pat: Seq<char>) -> Option<int> {
    if exists|i: int| occurs_at(s, pat, i) {
        Some(choose|i: int| occurs_at(s, pat, i) && forall|j: int| 0 <= j < i ==> !occurs_at(s, pat, j))
    } else {
        None
    }
}

/// Whether `pat` occurs in `s` at position `i`, tested character by character.
pub fn matches_at(s: &[char], pat: &[char], i: usize) -> (r: bool)
    ensures
        r == occurs_at(s@, pat@, i as int),
{
    if i > s.len() || pat.len() > s.len() - i {
        return false;
    }
    let n = s.len();
    let mut k: usize = 0;
    while k < pat.len()
        invariant
            n == s@.len(),
            i + pat@.len() <= s@.len(),
            i <= s@.len(),
            k <= pat@.len(),
            forall|j: int| 0 <= j < k ==> s@[i + j] == pat@[j],
        decreases pat@.len() - k,
    {
        assert(i + k < n);
        if s[i + k] != pat[k] {
            assert(s@.subrange(i as int, i + pat@.len())[k as int] != pat@[k as int]);
            return false;
        }
        k = k + 1;
    }
    assert(s@.subrange(i as int, i + pat@.len()) =~= pat@);
    true
}

/// The first position at which `pat` occurs in `s`, if any.
pub fn find(s: &[char], pat: &[char]) -> (r: Option<usize>)
    ensures
        match r {
            Some(i) => occurs_at(s@, pat@, i as int) && forall|j: int|
                0 <= j < i ==> !occurs_at(s@, pat@, j),
            None => forall|j: int| !occurs_at(s@, pat@, j),
        },
        r matches Some(i) ==> spec_find(s@, pat@) == Some(i as int),
        r is None ==> spec_find(s@, pat@) is None,
{
    let mut i: usize = 0;
    loop
        invariant
            i <= s@.len(),
            forall|j: int| 0 <= j < i ==> !occurs_at(s@, pat@, j),
        ensures
            i == s@.len(),
            forall|j: int| 0 <= j <= i ==> !occurs_at(s@, pat@, j),
        decreases s@.len() - i,
    {
        if matches_at(s, pat, i) {
            proof {
                let w = choose|w: int| occurs_at(s@, pat@, w) && forall|j: int|
                    0 <= j < w ==> !occurs_at(s@, pat@, j);
                assert(occurs_at(s@, pat@, w));
                if w < i {
                } else if w > i {
                    assert(!occurs_at(s@, pat@, i as int));
                }
            }
            return Some(i);
        }
        if i == s.len() {
            break;
        }
        i = i + 1;
    }
    assert forall|j: int| !occurs_at(s@, pat@, j) by {
        if 0 <= j <= i {
        } else {
            assert(j < 0 || j > s@.len());
        }
    }
    None
}

/// Whether `c` has the Unicode White_Space property (what `char::is_whitespace` tests).
pub open spec fn is_unicode_whitespace(c: char) -> bool {
    ||| '\u{9}' <= c <= '\u{d}'
    ||| c == ' '
    ||| c == '\u{85}'
    ||| c == '\u{a0}'
    ||| c == '\u{1680}'
    ||| '\u{2000}' <= c <= '\u{200a}'
    ||| c == '\u{2028}'
    ||| c == '\u{2029}'
    ||| c == '\u{202f}'
    ||| c == '\u{205f}'
    ||| c == '\u{3000}'
}

/// Whether `c` is Unicode whitespace.
pub fn char_is_whitespace(c: char) -> (r: bool)
    ensures
        r == is_unicode_whitespace(c),
{
    ('\u{9}' <= c && c <= '\u{d}') || c == ' ' || c == '\u{85}' || c == '\u{a0}' || c
        == '\u{1680}' || ('\u{2000}' <= c && c <= '\u{200a}') || c == '\u{2028}' || c
        == '\u{2029}' || c == '\u{202f}' || c == '\u{205f}' || c == '\u{3000}'
}

/// `s` without its leading whitespace.
pub open spec fn trim_start(s: Seq<char>) -> Seq<char>
    decreases s.len(),
{
    if s.len() > 0 && is_unicode_whitespace(s[0]) {
        trim_start(s.drop_first())
    } else {
        s
    }
}

/// `s` without its trailing whitespace.
pub open spec fn trim_end(s: Seq<char>) -> Seq<char>
    decreases s.len(),
{
    if s.len() > 0 && is_unicode_whitespace(s.last()) {
        trim_end(s.drop_last())
    } else {
        s
    }
}

/// `s` without leading and trailing whitespace (what `str::trim` returns).
pub open spec fn trim(s: Seq<char>) -> Seq<char> {
    trim_end(trim_start(s))
}

proof fn lemma_trim_start_skip(s: Seq<char>, i: int)
    requires
        0 <= i <= s.len(),
        forall|j: int| 0 <= j < i ==> is_unicode_whitespace(s[j]),
    ensures
        trim_start(s) == trim_start(s.subrange(i, s.len() as int)),
    decreases i,
{
    if i > 0 {
        let t = s.drop_first();
        assert forall|j: int| 0 <= j < i - 1 implies is_unicode_whitespace(t[j]) by {
            assert(t[j] == s[j + 1]);
        }
        lemma_trim_start_skip(t, i - 1);
        assert(t.subrange(i - 1, t.len() as int) =~= s.subrange(i, s.len() as int));
    } else {
        assert(s.subrange(0, s.len() as int) =~= s);
    }
}

proof fn lemma_trim_end_skip(s: Seq<char>, e: int)
    requires
        0 <= e <= s.len(),
        forall|j: int| e <= j < s.len() ==> is_unicode_whitespace(s[j]),
    ensures
        trim_end(s) == trim_end(s.subrange(0, e)),
    decreases s.len() - e,
{
    if e < s.len() {
        let t = s.drop_last();
        lemma_trim_end_skip(t, e);
        assert(t.subrange(0, e) =~= s.subrange(0, e));
    } else {
        assert(s.subrange(0, e) =~= s);
    }
}

/// The start position that `trim_bounds` finds is where `trim_start` begins.
pub proof fn lemma_trim_start_of_bounds(s: Seq<char>, a: int)
    requires
        0 <= a <= s.len(),
        forall|j: int| 0 <= j < a ==> is_unicode_whitespace(s[j]),
        a < s.len() ==> !is_unicode_whitespace(s[a]),
    ensures
        trim_start(s) == s.subrange(a, s.len() as int),
{
    lemma_trim_start_skip(s, a);
    let u = s.subrange(a, s.len() as int);
    if a < s.len() {
        assert(u[0] == s[a]);
    }
}

/// The bounds `[a, b)` of `s[from..to]` without leading and trailing whitespace.
pub fn trim_bounds(s: &[char], from: usize, to: usize) -> (r: (usize, usize))
    requires
        from <= to <= s@.len(),
    ensures
        from <= r.0 <= r.1 <= to,
        forall|j: int| from <= j < r.0 ==> is_unicode_whitespace(s@[j]),
        r.0 < to ==> !is_unicode_whitespace(s@[r.0 as int]),
        s@.subrange(r.0 as int, r.1 as int) == trim(s@.subrange(from as int, to as int)),
{
    let ghost t = s@.subrange(from as int, to as int);
    let mut a = from;
    while a < to && char_is_whitespace(s[a])
        invariant
            from <= a <= to <= s@.len(),
            forall|j: int| from <= j < a ==> is_unicode_whitespace(s@[j]),
        decreases to - a,
    {
        a = a + 1;
    }
    proof {
        assert forall|j: int| 0 <= j < a - from implies is_unicode_whitespace(t[j]) by {
            assert(t[j] == s@[from + j]);
        }
        lemma_trim_start_skip(t, a - from);
        assert(t.subrange(a - from, t.len() as int) =~= s@.subrange(a as int, to as int));
        let u = s@.subrange(a as int, to as int);
        if a < to {
            assert(u[0] == s@[a as int]);
        }
        assert(trim_start(t) == u);
    }
    let mut b = to;
    while b > a && char_is_whitespace(s[b - 1])
        invariant
            from <= a <= b <= to <= s@.len(),
            forall|j: int| b <= j < to ==> is_unicode_whitespace(s@[j]),
        decreases b - a,
    {
        b = b - 1;
    }
    proof {
        let u = s@.subrange(a as int, to as int);
        assert forall|j: int| b - a <= j < u.len() implies is_unicode_whitespace(u[j]) by {
            assert(u[j] == s@[a + j]);
        }
        lemma_trim_end_skip(u, b - a);
        let v = u.subrange(0, b - a);
        assert(v =~= s@.subrange(a as int, b as int));
        if b > a {
            assert(v.last() == s@[b - 1]);
        }
        assert(trim_end(v) == v);
    }
    (a, b)
}

/// The numeric value of a string of decimal digits.
pub open spec fn decimal_value(d: Seq<char>) -> nat
    decreases d.len(),
{
    if d.len() == 0 {
        0
    } else {
        decimal_value(d.drop_last()) * 10 + ((d.last() as int) - ('0' as int)) as nat
    }
}

/// What `u32::from_str` gives for `s`: an optional leading '+', then one or
/// more ASCII digits whose value fits in a `u32`; `None` for anything else.
pub open spec fn parse_u32(s: Seq<char>) -> Option<u32> {
    let d = unsigned_digits(s);
    if d.len() == 0 || !all_digits(d) {
        None
    } else if decimal_value(d) > u32::MAX {
        None
    } else {
        Some(decimal_value(d) as u32)
    }
}

/// `s` without one leading '+' sign, if it has one.
pub open spec fn unsigned_digits(s: Seq<char>) -> Seq<char> {
    if s.len() > 0 && s[0] == '+' {
        s.drop_first()
    } else {
        s
    }
}

/// Whether every character of `d` is an ASCII digit.
pub open spec fn all_digits(d: Seq<char>) -> bool {
    forall|i: int| 0 <= i < d.len() ==> is_ascii_digit(#[trigger] d[i])
}

proof fn lemma_decimal_value_monotone(d: Seq<char>, n: int)
    requires
        0 <= n <= d.len(),
        forall|i: int| 0 <= i < d.len() ==> is_ascii_digit(#[trigger] d[i]),
    ensures
        decimal_value(d.subrange(0, n)) <= decimal_value(d),
    decreases d.len() - n,
{
    if n < d.len() {
        let t = d.drop_last();
        lemma_decimal_value_monotone(t, n);
        assert(t.subrange(0, n) =~= d.subrange(0, n));
    } else {
        assert(d.subrange(0, n) =~= d);
    }
}

/// Parses `s[from..to]` as `u32::from_str` would.
pub fn parse_u32_range(s: &[char], from: usize, to: usize) -> (r: Option<u32>)
    requires
        from <= to <= s@.len(),
    ensures
        r == parse_u32(s@.subrange(from as int, to as int)),
{
    let ghost t = s@.subrange(from as int, to as int);
    let mut start = from;
    if from < to && s[from] == '+' {
        start = from + 1;
    }
    let ghost d = s@.subrange(start as int, to as int);
    proof {
        if from < to && s@[from as int] == '+' {
            assert(t.drop_first() =~= d);
        } else {
            assert(t =~= d);
        }
    }
    if start == to {
        return None;
    }
    let mut value: u64 = 0;
    let mut i = start;
    while i < to
        invariant
            from <= start <= i <= to <= s@.len(),
            start < to,
            d == s@.subrange(start as int, to as int),
            t == s@.subrange(from as int, to as int),
            d == unsigned_digits(t),
            forall|j: int| start <= j < i ==> is_ascii_digit(#[trigger] s@[j]),
            value == decimal_value(s@.subrange(start as int, i as int)),
            value <= u32::MAX,
        decreases to - i,
    {
        let c = s[i];
        if !('0' <= c && c <= '9') {
            proof {
                assert(d[i - start] == c);
                assert(!is_ascii_digit(d[i - start]));
                assert(!all_digits(d));
                assert(parse_u32(t) is None);
            }
            return None;
        }
        let digit: u64 = (c as u32 - '0' as u32) as u64;
        let next = value * 10 + digit;
        proof {
            let p = s@.subrange(start as int, i + 1);
            assert(p.drop_last() =~= s@.subrange(start as int, i as int));
            assert(p.last() == c);
        }
        if next > 0xFFFF_FFFFu64 {
            proof {
                if all_digits(d) {
                    lemma_decimal_value_monotone(d, i + 1 - start);
                    assert(d.subrange(0, i + 1 - start) =~= s@.subrange(start as int, i + 1));
                    assert(decimal_value(s@.subrange(start as int, i + 1)) == next);
                    assert(decimal_value(d) > u32::MAX);
                }
                assert(parse_u32(t) is None);
            }
            return None;
        }
        value = next;
        i = i + 1;
    }
    proof {
        assert(s@.subrange(start as int, to as int) =~= d);
        assert forall|j: int| 0 <= j < d.len() implies is_ascii_digit(#[trigger] d[j]) by {
            assert(d[j] == s@[start + j]);
        }
    }
    Some(value as u32)
}

/// The decimal digit character for `n` (0..=9).
pub open spec fn digit_char(n: int) -> char {
    (('0' as int) + n) as char
}

/// The decimal representation of `n`, without leading zeros ("0" for zero).
pub open spec fn decimal_digits(n: nat) -> Seq<char>
    decreases n,
{
    if n < 10 {
        seq![digit_char(n as int)]
    } else {
        decimal_digits(n / 10).push(digit_char((n % 10) as int))
    }
}

fn digit_to_char(n: u64) -> (c: char)
    requires
        n < 10,
    ensures
        c == digit_char(n as int),
{
    let b: u8 = (48 + n) as u8;
    b as char
}

/// Appends the decimal representation of `n` to `out`.
pub fn push_decimal(out: &mut String, n: u64)
    ensures
        final(out)@ == old(out)@ + decimal_digits(n as nat),
    decreases n,
{
    if n < 10 {
        push_char(out, digit_to_char(n));
        assert(final(out)@ =~= old(out)@ + decimal_digits(n as nat));
    } else {
        push_decimal(out, n / 10);
        push_char(out, digit_to_char(n % 10));
        assert(final(out)@ =~= old(out)@ + decimal_digits(n as nat));
    }
}

/// The decimal representation of `n` as a string (what `n.to_string()` gives).
pub fn decimal_string(n: u64) -> (r: String)
    ensures
        r@ == decimal_digits(n as nat),
{
    let mut r = String::new();
    push_decimal(&mut r, n);
    assert(r@ =~= decimal_digits(n as nat));
    r
}

/// Whether two string slices hold the same characters.
pub fn str_equal(a: &str, b: &str) -> (r: bool)
    ensures
        r == (a@ == b@),
{
    let x = to_chars(a);
    let y = to_chars(b);
    chars_equal(&x, &y)
}

/// Whether two character slices are equal.
pub fn chars_equal(x: &[char], y: &[char]) -> (r: bool)
    ensures
        r == (x@ == y@),
{
    if x.len() != y.len() {
        return false;
    }
    let mut i: usize = 0;
    while i < x.len()
        invariant
            x@.len() == y@.len(),
            i <= x@.len(),
            forall|j: int| 0 <= j < i ==> x@[j] == y@[j],
        decreases x@.len() - i,
    {
        if x[i] != y[i] {
            return false;
        }
        i = i + 1;
    }
    assert(x@ =~= y@);
    true
}

/// What `str::to_lowercase` gives for a string: a function of the text alone
/// (the Unicode lowercase mapping), not stated here.
pub uninterp spec fn lowercase(s: Seq<char>) -> Seq<char>;

/// The lowercase form of a string, from `str::to_lowercase`. The contract
/// names the result and says no more of it.
#[verifier::external_body]
pub(crate) fn to_lowercase(s: &str) -> (r: String)
    ensures
        r@ == lowercase(s@),
{
    s.to_lowercase()
}

/// The pieces of `s` between occurrences of `sep`, in order (what
/// `str::split` with a character gives): one piece more than there are
/// separators, empty pieces included.
pub open spec fn split_char(s: Seq<char>, sep: char) -> Seq<Seq<char>>
    decreases s.len(),
{
    if s.len() == 0 {
        seq![Seq::empty()]
    } else {
        let rest = split_char(s.drop_first(), sep);
        if s[0] == sep {
            seq![Seq::<char>::empty()] + rest
        } else {
            rest.update(0, seq![s[0]] + rest[0])
        }
    }
}

/// The pieces of `t` split at `sep`, with `cur` put before the first one.
pub open spec fn split_after(cur: Seq<char>, t: Seq<char>, sep: char) -> Seq<Seq<char>> {
    let rest = split_char(t, sep);
    rest.update(0, cur + rest[0])
}

proof fn lemma_split_nonempty(s: Seq<char>, sep: char)
    ensures
        split_char(s, sep).len() > 0,
    decreases s.len(),
{
    if s.len() > 0 {
        lemma_split_nonempty(s.drop_first(), sep);
    }
}

/// Splits `s` at every occurrence of `sep`.
pub fn split_chars(s: &[char], sep: char) -> (r: Vec<Vec<char>>)
    ensures
        r@.map_values(|v: Vec<char>| v@) == split_char(s@, sep),
{
    let mut pieces: Vec<Vec<char>> = Vec::new();
    let mut cur: Vec<char> = Vec::new();
    let mut i: usize = 0;
    proof {
        lemma_split_nonempty(s@, sep);
        assert(split_after(cur@, s@.subrange(0, s@.len() as int), sep) =~= split_char(s@, sep)) by {
            assert(s@.subrange(0, s@.len() as int) =~= s@);
            assert(Seq::<char>::empty() + split_char(s@, sep)[0] =~= split_char(s@, sep)[0]);
        }
    }
    while i < s.len()
        invariant
            i <= s@.len(),
            pieces@.map_values(|v: Vec<char>| v@) + split_after(
                cur@,
                s@.subrange(i as int, s@.len() as int),
                sep,
            ) == split_char(s@, sep),
        decreases s@.len() - i,
    {
        let ghost t = s@.subrange(i as int, s@.len() as int);
        let ghost before = pieces@.map_values(|v: Vec<char>| v@);
        let ghost cur0 = cur@;
        let c = s[i];
        proof {
            assert(t[0] == c);
            assert(t.drop_first() =~= s@.subrange(i + 1, s@.len() as int));
            lemma_split_nonempty(t.drop_first(), sep);
        }
        if c == sep {
            pieces.push(cur);
            cur = Vec::new();
            proof {
                let t1 = t.drop_first();
                assert(split_after(cur0, t, sep) =~= seq![cur0] + split_after(Seq::empty(), t1, sep)) by {
                    assert(Seq::<char>::empty() + split_char(t1, sep)[0] =~= split_char(t1, sep)[0]);
                    assert(cur0 + Seq::<char>::empty() =~= cur0);
                }
                assert(pieces@.map_values(|v: Vec<char>| v@) =~= before.push(cur0));
            }
        } else {
            cur.push(c);
            proof {
                let t1 = t.drop_first();
                assert(cur0 + (seq![c] + split_char(t1, sep)[0]) =~= cur0.push(c) + split_char(t1, sep)[0]);
                assert(split_after(cur0, t, sep) =~= split_after(cur0.push(c), t1, sep));
            }
        }
        i = i + 1;
    }
    proof {
        let t = s@.subrange(i as int, s@.len() as int);
        assert(t =~= Seq::<char>::empty());
        assert(split_after(cur@, t, sep) =~= seq![cur@]);
    }
    pieces.push(cur);
    proof {
        let before = pieces@.drop_last().map_values(|v: Vec<char>| v@);
        assert(pieces@.map_values(|v: Vec<char>| v@) =~= before.push(cur@));
    }
    pieces
}

/// `s` without its leading occurrences of `c` (what `trim_start_matches`
/// with a character gives).
pub open spec fn strip_leading(s: Seq<char>, c: char) -> Seq<char>
    decreases s.len(),
{
    if s.len() > 0 && s[0] == c {
        strip_leading(s.drop_first(), c)
    } else {
        s
    }
}

/// Whether two character sequences are equal ignoring ASCII case.
pub fn chars_eq_ignore_ascii_case(a: &[char], b: &[char]) -> (r: bool)
    ensures
        r == eq_ignore_ascii_case(a@, b@),
{
    if a.len() != b.len() {
        return false;
    }
    let mut i: usize = 0;
    while i < a.len()
        invariant
            a@.len() == b@.len(),
            i <= a@.len(),
            forall|j: int| 0 <= j < i ==> ascii_lower(#[trigger] a@[j]) == ascii_lower(b@[j]),
        decreases a@.len() - i,
    {
        if char_ascii_lower(a[i]) != char_ascii_lower(b[i]) {
            return false;
        }
        i = i + 1;
    }
    true
}

/// Whether `a` comes strictly before `b` in the order of `str`: character by
/// character by code point, a proper prefix first.
pub open spec fn seq_lt(a: Seq<char>, b: Seq<char>) -> bool
    decreases a.len(),
{
    if a.len() == 0 {
        b.len() > 0
    } else if b.len() == 0 {
        false
    } else if (a[0] as u32) < (b[0] as u32) {
        true
    } else if a[0] == b[0] {
        seq_lt(a.drop_first(), b.drop_first())
    } else {
        false
    }
}

/// Whether `a[i..]` comes strictly before `b[i..]`.
proof fn lemma_seq_lt_suffix(a: Seq<char>, b: Seq<char>, i: int)
    requires
        0 <= i <= a.len(),
        i <= b.len(),
        forall|j: int| 0 <= j < i ==> a[j] == b[j],
    ensures
        seq_lt(a, b) == seq_lt(a.subrange(i, a.len() as int), b.subrange(i, b.len() as int)),
    decreases i,
{
    if i > 0 {
        lemma_seq_lt_suffix(a.drop_first(), b.drop_first(), i - 1);
        assert(a.drop_first().subrange(i - 1, a.len() - 1) =~= a.subrange(i, a.len() as int));
        assert(b.drop_first().subrange(i - 1, b.len() - 1) =~= b.subrange(i, b.len() as int));
    } else {
        assert(a.subrange(0, a.len() as int) =~= a);
        assert(b.subrange(0, b.len() as int) =~= b);
    }
}

/// Whether `a` comes strictly before `b` in the order of `str`.
pub fn chars_less(a: &[char], b: &[char]) -> (r: bool)
    ensures
        r == seq_lt(a@, b@),
{
    let mut i: usize = 0;
    while i < a.len() && i < b.len() && a[i] == b[i]
        invariant
            i <= a@.len(),
            i <= b@.len(),
            forall|j: int| 0 <= j < i ==> a@[j] == b@[j],
        decreases a@.len() - i,
    {
        i = i + 1;
    }
    proof {
        lemma_seq_lt_suffix(a@, b@, i as int);
    }
    let ra = a.len() - i;
    let rb = b.len() - i;
    proof {
        let sa = a@.subrange(i as int, a@.len() as int);
        let sb = b@.subrange(i as int, b@.len() as int);
        if ra > 0 && rb > 0 {
            assert(sa[0] == a@[i as int] && sb[0] == b@[i as int]);
        }
    }
    if ra == 0 {
        rb > 0
    } else if rb == 0 {
        false
    } else {
        (a[i] as u32) < (b[i] as u32)
    }
}

/// Whether `pat` occurs somewhere in `s`.
pub open spec fn contains_seq(s: Seq<char>, pat: Seq<char>) -> bool {
    exists|i: int| occurs_at(s, pat, i)
}

/// Whether `pat` occurs somewhere in `s`.
pub fn chars_contain(s: &[char], pat: &[char]) -> (r: bool)
    ensures
        r == contains_seq(s@, pat@),
{
    match find(s, pat) {
        Some(i) => {
            assert(occurs_at(s@, pat@, i as int));
            true
        },
        None => false,
    }
}

/// The order of `str` is transitive.
pub proof fn lemma_seq_lt_transitive(a: Seq<char>, b: Seq<char>, c: Seq<char>)
    requires
        seq_lt(a, b),
        seq_lt(b, c),
    ensures
        seq_lt(a, c),
    decreases a.len(),
{
    if a.len() > 0 && b.len() > 0 && c.len() > 0 && a[0] == b[0] && b[0] == c[0] {
        lemma_seq_lt_transitive(a.drop_first(), b.drop_first(), c.drop_first());
    }
}

/// The order of `str` is asymmetric.
pub proof fn lemma_seq_lt_asymmetric(a: Seq<char>, b: Seq<char>)
    requires
        seq_lt(a, b),
    ensures
        !seq_lt(b, a),
    decreases a.len(),
{
    if a.len() > 0 && b.len() > 0 && a[0] == b[0] {
        lemma_seq_lt_asymmetric(a.drop_first(), b.drop_first());
    }
}

/// The texts of a sequence of string slices.
pub open spec fn str_views(s: Seq<&str>) -> Seq<Seq<char>> {
    s.map_values(|x: &str| x@)
}

/// Where a stable insertion puts `x` into `sorted`: before the first text
/// that `x` comes strictly before.
pub open spec fn text_insertion_point(sorted: Seq<Seq<char>>, x: Seq<char>) -> int
    decreases sorted.len(),
{
    if sorted.len() == 0 {
        0
    } else if seq_lt(x, sorted[0]) {
        0
    } else {
        1 + text_insertion_point(sorted.drop_first(), x)
    }
}

/// The texts in the order of `str`, equal texts in their original order.
pub open spec fn sorted_texts(s: Seq<Seq<char>>) -> Seq<Seq<char>>
    decreases s.len(),
{
    if s.len() == 0 {
        Seq::empty()
    } else {
        let rest = sorted_texts(s.drop_last());
        rest.insert(text_insertion_point(rest, s.last()), s.last())
    }
}

proof fn lemma_text_insertion_point(sorted: Seq<Seq<char>>, x: Seq<char>)
    ensures
        0 <= text_insertion_point(sorted, x) <= sorted.len(),
        forall|j: int| 0 <= j < text_insertion_point(sorted, x) ==> !seq_lt(x, #[trigger] sorted[j]),
        text_insertion_point(sorted, x) < sorted.len() ==> seq_lt(x, sorted[text_insertion_point(sorted, x)]),
    decreases sorted.len(),
{
    if sorted.len() > 0 && !seq_lt(x, sorted[0]) {
        let t = sorted.drop_first();
        lemma_text_insertion_point(t, x);
        assert forall|j: int| 0 <= j < text_insertion_point(sorted, x) implies !seq_lt(x, #[trigger] sorted[j]) by {
            if j > 0 {
                assert(sorted[j] == t[j - 1]);
            }
        }
        if text_insertion_point(sorted, x) < sorted.len() {
            assert(sorted[text_insertion_point(sorted, x)] == t[text_insertion_point(t, x)]);
        }
    }
}

proof fn lemma_text_insertion_point_at(sorted: Seq<Seq<char>>, x: Seq<char>, k: int)
    requires
        0 <= k <= sorted.len(),
        forall|j: int| 0 <= j < k ==> !seq_lt(x, #[trigger] sorted[j]),
        k < sorted.len() ==> seq_lt(x, sorted[k]),
    ensures
        text_insertion_point(sorted, x) == k,
    decreases k,
{
    if k > 0 {
        let t = sorted.drop_first();
        assert forall|j: int| 0 <= j < k - 1 implies !seq_lt(x, #[trigger] t[j]) by {
            assert(t[j] == sorted[j + 1]);
        }
        if k < sorted.len() {
            assert(t[k - 1] == sorted[k]);
        }
        lemma_text_insertion_point_at(t, x, k - 1);
        assert(!seq_lt(x, sorted[0]));
    }
}

/// Sorts string slices in the order of `str`; equal ones keep their order.
pub fn sort_strs<'a>(v: Vec<&'a str>) -> (r: Vec<&'a str>)
    ensures
        str_views(r@) == sorted_texts(str_views(v@)),
{
    let ghost all = str_views(v@);
    let mut rest = v;
    let mut out: Vec<&'a str> = Vec::new();
    let n = rest.len();
    let mut i: usize = 0;
    while rest.len() > 0
        invariant
            n == all.len(),
            i <= n,
            str_views(rest@) == all.subrange(i as int, n as int),
            str_views(out@) == sorted_texts(all.take(i as int)),
        decreases rest@.len(),
    {
        let ghost rest0 = rest@;
        let x = rest.remove(0);
        let xc = to_chars(x);
        proof {
            assert(str_views(rest0).len() == rest0.len());
            assert(i < n);
            assert(x == rest0[0]);
            assert(str_views(rest0)[0] == rest0[0]@);
            assert(all.subrange(i as int, n as int)[0] == all[i as int]);
            assert(x@ == all[i as int]);
        }
        let mut k: usize = 0;
        while k < out.len() && !chars_less(&xc, &to_chars(out[k]))
            invariant
                k <= out@.len(),
                xc@ == x@,
                forall|j: int| 0 <= j < k ==> !seq_lt(x@, #[trigger] str_views(out@)[j]),
            decreases out@.len() - k,
        {
            k = k + 1;
        }
        proof {
            lemma_text_insertion_point_at(str_views(out@), x@, k as int);
            assert(all.take(i + 1).drop_last() =~= all.take(i as int));
            assert(all.take(i + 1).last() == x@);
        }
        let ghost before = out@;
        out.insert(k, x);
        i = i + 1;
        proof {
            assert(str_views(out@) =~= str_views(before).insert(k as int, x@));
            assert(rest@ =~= rest0.subrange(1, rest0.len() as int));
            assert(str_views(rest@) =~= str_views(rest0).subrange(1, rest0.len() as int));
            assert(str_views(rest@) =~= all.subrange(i as int, n as int));
        }
    }
    assert(all.take(i as int) =~= all);
    out
}

/// Sorted text comes out in order: no text comes strictly before one
/// listed ahead of it.
pub proof fn law_texts_ordered(s: Seq<Seq<char>>)
    ensures
        forall|i: int, j: int|
            0 <= i < j < sorted_texts(s).len() ==> !seq_lt(#[trigger] sorted_texts(s)[j], #[trigger] sorted_texts(s)[i]),
    decreases s.len(),
{
    if s.len() > 0 {
        let rest = sorted_texts(s.drop_last());
        let x = s.last();
        law_texts_ordered(s.drop_last());
        lemma_text_insertion_point(rest, x);
        let k = text_insertion_point(rest, x);
        let t = rest.insert(k, x);
        assert forall|i: int, j: int| 0 <= i < j < t.len() implies !seq_lt(#[trigger] t[j], #[trigger] t[i]) by {
            if j < k {
                assert(t[i] == rest[i] && t[j] == rest[j]);
            } else if j == k {
                assert(t[i] == rest[i]);
            } else if i == k {
                assert(t[j] == rest[j - 1]);
                if seq_lt(rest[j - 1], x) {
                    lemma_seq_lt_transitive(rest[j - 1], x, rest[k]);
                    if j - 1 == k {
                        lemma_seq_lt_asymmetric(rest[k], rest[k]);
                    }
                }
            } else if i < k {
                assert(t[i] == rest[i] && t[j] == rest[j - 1]);
            } else {
                assert(t[i] == rest[i - 1] && t[j] == rest[j - 1]);
            }
        }
    }
}

/// Sorting keeps every text, as often as it occurs.
pub proof fn law_texts_permute(s: Seq<Seq<char>>)
    ensures
        sorted_texts(s).to_multiset() == s.to_multiset(),
    decreases s.len(),
{
    if s.len() > 0 {
        let rest = sorted_texts(s.drop_last());
        let x = s.last();
        assert(s.drop_last().push(x) =~= s);
        law_texts_permute(s.drop_last());
        lemma_text_insertion_point(rest, x);
        vstd::seq_lib::to_multiset_insert(rest, text_insertion_point(rest, x), x);
        vstd::seq_lib::to_multiset_build(s.drop_last(), x);
        assert(sorted_texts(s).to_multiset() =~= s.to_multiset());
    } else {
        assert(s =~= Seq::<Seq<char>>::empty());
    }
}

/// Appends the characters of `t` to `s`.
pub fn push_str(s: &mut String, t: &str)
    ensures
        final(s)@ == old(s)@ + t@,
{
    let chars = to_chars(t);
    let ghost start = s@;
    let mut i: usize = 0;
    while i < chars.len()
        invariant
            i <= chars@.len(),
            chars@ == t@,
            s@ == start + chars@.take(i as int),
        decreases chars@.len() - i,
    {
        push_char(s, chars[i]);
        i = i + 1;
        assert(s@ =~= start + chars@.take(i as int));
    }
    assert(chars@.take(i as int) =~= chars@);
}

/// `a` followed by `b` as a new string.
pub fn concat(a: &str, b: &str) -> (r: String)
    ensures
        r@ == a@ + b@,
{
    let mut r = String::new();
    push_str(&mut r, a);
    push_str(&mut r, b);
    assert(r@ =~= a@ + b@);
    r
}

} // verus!
