//! Character-level helpers shared by the date, label and category logic:
//! decimal integer parsing (as `str::parse` does it), `-`-separated fields,
//! zero-padded decimal formatting and ASCII-free whitespace handling.

use vstd::prelude::*;
use vstd::string::StringSliceAdditionalSpecFns;

verus! {

broadcast use vstd::string::group_string_axioms;

// ---------------------------------------------------------------------------
// Specifications
// ---------------------------------------------------------------------------

pub open spec fn is_digit(c: char) -> bool {
    '0' <= c <= '9'
}

pub open spec fn digit_value(c: char) -> int {
    c as int - '0' as int
}

pub open spec fn all_digits(s: Seq<char>) -> bool {
    forall|i: int| 0 <= i < s.len() ==> is_digit(#[trigger] s[i])
}

/// The number written by a string of decimal digits (most significant first).
pub open spec fn digits_value(s: Seq<char>) -> int
    decreases s.len(),
{
    if s.len() == 0 {
        0
    } else {
        digits_value(s.drop_last()) * 10 + digit_value(s.last())
    }
}

/// What `str::parse::<i64>` accepts: an optional `+` or `-`, then at least
/// one ASCII digit and nothing else, with a value that fits in `i64`.
pub open spec fn spec_parse_i64(s: Seq<char>) -> Option<i64> {
    if s.len() == 0 {
        None
    } else {
        let signed = s[0] == '+' || s[0] == '-';
        let body = if signed { s.drop_first() } else { s };
        let value = if s[0] == '-' { -digits_value(body) } else { digits_value(body) };
        if body.len() > 0 && all_digits(body) && i64::MIN <= value <= i64::MAX {
            Some(value as i64)
        } else {
            None
        }
    }
}

/// What `str::parse::<u32>` accepts: an optional `+`, then at least one
/// ASCII digit and nothing else, with a value that fits in `u32`.
pub open spec fn spec_parse_u32(s: Seq<char>) -> Option<u32> {
    if s.len() == 0 {
        None
    } else {
        let body = if s[0] == '+' { s.drop_first() } else { s };
        if body.len() > 0 && all_digits(body) && digits_value(body) <= u32::MAX {
            Some(digits_value(body) as u32)
        } else {
            None
        }
    }
}

/// Index of the first occurrence of `c` at or after `from`, if any.
pub open spec fn first_index_from(s: Seq<char>, c: char, from: int) -> Option<int>
    decreases s.len() - from,
{
    if from < 0 || from >= s.len() {
        None
    } else if s[from] == c {
        Some(from)
    } else {
        first_index_from(s, c, from + 1)
    }
}

/// Split at the first `-`: the text before it and the text after it.
pub open spec fn split_once_dash(s: Seq<char>) -> Option<(Seq<char>, Seq<char>)> {
    match first_index_from(s, '-', 0) {
        Some(i) => Some((s.take(i), s.skip(i + 1))),
        None => None,
    }
}

/// The text up to the first `-`, or the whole text when there is none.
pub open spec fn first_dash_field(s: Seq<char>) -> Seq<char> {
    match first_index_from(s, '-', 0) {
        Some(i) => s.take(i),
        None => s,
    }
}

pub open spec fn digit_char(d: int) -> char {
    ('0' as int + d) as char
}

/// Decimal digits of a natural number, without leading zeros ("0" for zero).
pub open spec fn decimal_digits(n: nat) -> Seq<char>
    decreases n,
{
    if n < 10 {
        seq![digit_char(n as int)]
    } else {
        decimal_digits(n / 10).push(digit_char((n % 10) as int))
    }
}

/// Left-pad with `'0'` up to `width` characters.
pub open spec fn zero_pad(s: Seq<char>, width: int) -> Seq<char> {
    if s.len() >= width {
        s
    } else {
        Seq::new((width - s.len()) as nat, |i: int| '0') + s
    }
}

/// What `format!("{:0w$}", v)` writes for an integer: sign-aware zero padding,
/// where the width counts the minus sign of a negative number.
pub open spec fn fmt_zero_padded(v: int, width: int) -> Seq<char> {
    if v >= 0 {
        zero_pad(decimal_digits(v as nat), width)
    } else {
        seq!['-'] + zero_pad(decimal_digits((-v) as nat), width - 1)
    }
}

/// The characters `char::is_whitespace` accepts: the Unicode `White_Space` set.
pub open spec fn is_white_space(c: char) -> bool {
    ||| '\t' <= c <= '\r'
    ||| c == ' '
    ||| c == '\u{85}'
    ||| c == '\u{A0}'
    ||| c == '\u{1680}'
    ||| '\u{2000}' <= c <= '\u{200A}'
    ||| c == '\u{2028}'
    ||| c == '\u{2029}'
    ||| c == '\u{202F}'
    ||| c == '\u{205F}'
    ||| c == '\u{3000}'
}

pub open spec fn all_white_space(s: Seq<char>) -> bool {
    forall|i: int| 0 <= i < s.len() ==> is_white_space(#[trigger] s[i])
}

/// The text without leading white space.
pub open spec fn trim_start(s: Seq<char>) -> Seq<char>
    decreases s.len(),
{
    if s.len() > 0 && is_white_space(s[0]) {
        trim_start(s.drop_first())
    } else {
        s
    }
}

/// The text without trailing white space.
pub open spec fn trim_end(s: Seq<char>) -> Seq<char>
    decreases s.len(),
{
    if s.len() > 0 && is_white_space(s.last()) {
        trim_end(s.drop_last())
    } else {
        s
    }
}

/// What `str::trim` returns: the text without leading or trailing white space.
pub open spec fn trimmed(s: Seq<char>) -> Seq<char> {
    trim_end(trim_start(s))
}

/// Whether `needle` occurs as a contiguous part of `hay`.
pub open spec fn contains_seq(hay: Seq<char>, needle: Seq<char>) -> bool {
    exists|i: int|
        0 <= i && i + needle.len() <= hay.len() && #[trigger] hay.subrange(i, i + needle.len())
            == needle
}

// ---------------------------------------------------------------------------
// Lemmas
// ---------------------------------------------------------------------------

pub proof fn lemma_digits_value_nonneg(s: Seq<char>)
    requires
        all_digits(s),
    ensures
        digits_value(s) >= 0,
    decreases s.len(),
{
    if s.len() > 0 {
        assert(is_digit(s[s.len() - 1]));
        lemma_digits_value_nonneg(s.drop_last());
    }
}

/// Digits of a longer prefix never write a smaller number.
pub proof fn lemma_digits_value_prefix_monotone(s: Seq<char>, k: int)
    requires
        all_digits(s),
        0 <= k <= s.len(),
    ensures
        digits_value(s.take(k)) <= digits_value(s),
    decreases s.len() - k,
{
    if k < s.len() {
        let t = s.take(k + 1);
        assert(t.drop_last() =~= s.take(k));
        assert(is_digit(t.last()));
        lemma_digits_value_nonneg(s.take(k));
        lemma_digits_value_prefix_monotone(s, k + 1);
    } else {
        assert(s.take(k) =~= s);
    }
}

/// A string of at most `n` digits writes a number below `10^n` (for small `n`).
pub proof fn lemma_digits_value_bound(s: Seq<char>)
    requires
        all_digits(s),
        s.len() <= 5,
    ensures
        0 <= digits_value(s) < 100000,
        s.len() <= 4 ==> digits_value(s) < 10000,
        s.len() <= 3 ==> digits_value(s) < 1000,
        s.len() <= 2 ==> digits_value(s) < 100,
        s.len() <= 1 ==> digits_value(s) < 10,
    decreases s.len(),
{
    if s.len() > 0 {
        assert(is_digit(s.last()));
        lemma_digits_value_bound(s.drop_last());
    }
}

pub proof fn lemma_first_index_from_found(s: Seq<char>, c: char, from: int)
    requires
        0 <= from <= s.len(),
    ensures
        match first_index_from(s, c, from) {
            Some(i) => from <= i < s.len() && s[i] == c && forall|j: int|
                from <= j < i ==> s[j] != c,
            None => forall|j: int| from <= j < s.len() ==> s[j] != c,
        },
    decreases s.len() - from,
{
    if from < s.len() && s[from] != c {
        lemma_first_index_from_found(s, c, from + 1);
    }
}

/// Searching a suffix is searching the whole text from the suffix's start.
pub proof fn lemma_first_index_skip(s: Seq<char>, c: char, k: int, j: int)
    requires
        0 <= k <= s.len(),
        0 <= j,
    ensures
        first_index_from(s.skip(k), c, j) == (match first_index_from(s, c, k + j) {
            Some(i) => Some(i - k),
            None => None::<int>,
        }),
    decreases s.len() - k - j,
{
    if k + j < s.len() && s[k + j] != c {
        lemma_first_index_skip(s, c, k, j + 1);
    }
}

/// Splitting at the first dash, with the dash at `i`, in terms of subranges.
pub proof fn lemma_split_once_dash_at(s: Seq<char>, from: int, i: int)
    requires
        0 <= from <= s.len(),
        first_index_from(s, '-', from) == Some(i),
    ensures
        split_once_dash(s.skip(from)) == Some(
            (s.subrange(from, i), s.subrange(i + 1, s.len() as int)),
        ),
{
    lemma_first_index_skip(s, '-', from, 0);
    lemma_first_index_from_found(s, '-', from);
    assert(s.skip(from).take(i - from) =~= s.subrange(from, i));
    assert(s.skip(from).skip(i - from + 1) =~= s.subrange(i + 1, s.len() as int));
}

/// With no dash from `from` on, the suffix does not split.
pub proof fn lemma_split_once_dash_none(s: Seq<char>, from: int)
    requires
        0 <= from <= s.len(),
        first_index_from(s, '-', from) is None,
    ensures
        split_once_dash(s.skip(from)) is None,
        first_dash_field(s.skip(from)) == s.subrange(from, s.len() as int),
{
    lemma_first_index_skip(s, '-', from, 0);
    assert(s.skip(from) =~= s.subrange(from, s.len() as int));
}

/// The first dash-separated field of a suffix, when a dash follows at `i`.
pub proof fn lemma_first_dash_field_at(s: Seq<char>, from: int, i: int)
    requires
        0 <= from <= s.len(),
        first_index_from(s, '-', from) == Some(i),
    ensures
        first_dash_field(s.skip(from)) == s.subrange(from, i),
{
    lemma_first_index_skip(s, '-', from, 0);
    lemma_first_index_from_found(s, '-', from);
    assert(s.skip(from).take(i - from) =~= s.subrange(from, i));
}

/// Digits never write a number with more digits than they have.
pub proof fn lemma_digits_value_lt_pow10(s: Seq<char>)
    requires
        all_digits(s),
    ensures
        0 <= digits_value(s) < pow10(s.len()),
    decreases s.len(),
{
    if s.len() > 0 {
        assert(is_digit(s.last()));
        lemma_digits_value_lt_pow10(s.drop_last());
        assert(pow10(s.len()) == 10 * pow10((s.len() - 1) as nat));
    }
}

/// A `u32` field of at most five characters is below 100000.
pub proof fn lemma_parse_u32_short(s: Seq<char>)
    requires
        s.len() <= 5,
        spec_parse_u32(s) is Some,
    ensures
        spec_parse_u32(s)->0 < 100_000,
{
    let body = if s[0] == '+' { s.drop_first() } else { s };
    lemma_digits_value_lt_pow10(body);
    lemma_pow10_monotone(body.len(), 5);
    reveal_with_fuel(pow10, 6);
}

/// An `i64` field of at most six characters is below one million in magnitude.
pub proof fn lemma_parse_i64_short(s: Seq<char>)
    requires
        s.len() <= 6,
        spec_parse_i64(s) is Some,
    ensures
        -1_000_000 < spec_parse_i64(s)->0 < 1_000_000,
{
    let signed = s[0] == '+' || s[0] == '-';
    let body = if signed { s.drop_first() } else { s };
    lemma_digits_value_lt_pow10(body);
    lemma_pow10_monotone(body.len(), 6);
    reveal_with_fuel(pow10, 7);
}

pub proof fn lemma_pow10_monotone(a: nat, b: nat)
    requires
        a <= b,
    ensures
        pow10(a) <= pow10(b),
    decreases b,
{
    if a < b {
        lemma_pow10_monotone(a, (b - 1) as nat);
        assert(pow10(b) == 10 * pow10((b - 1) as nat));
    }
}

/// Each character takes at least one byte in UTF-8.
pub proof fn lemma_encode_utf8_len(chars: Seq<char>)
    ensures
        vstd::utf8::encode_utf8(chars).len() >= chars.len(),
    decreases chars.len(),
{
    if chars.len() > 0 {
        lemma_encode_utf8_len(chars.drop_first());
    }
}

/// Decoding never yields more characters than there are bytes.
pub proof fn lemma_decode_utf8_len(bytes: Seq<u8>)
    requires
        vstd::utf8::valid_utf8(bytes),
    ensures
        vstd::utf8::decode_utf8(bytes).len() <= bytes.len(),
{
    vstd::utf8::decode_utf8_encode_utf8(bytes);
    lemma_encode_utf8_len(vstd::utf8::decode_utf8(bytes));
}

pub proof fn lemma_decimal_digits_facts(n: nat)
    ensures
        decimal_digits(n).len() >= 1,
        n < 10 ==> decimal_digits(n).len() == 1,
        n < 100 ==> decimal_digits(n).len() <= 2,
        n < 1000 ==> decimal_digits(n).len() <= 3,
        n < 10000 ==> decimal_digits(n).len() <= 4,
        forall|i: int| 0 <= i < decimal_digits(n).len() ==> is_digit(#[trigger] decimal_digits(n)[i]),
    decreases n,
{
    if n >= 10 {
        lemma_decimal_digits_facts(n / 10);
    }
}

/// The decimal digits of `n` are digits and write `n`.
pub proof fn lemma_decimal_digits_value(n: nat)
    ensures
        all_digits(decimal_digits(n)),
        digits_value(decimal_digits(n)) == n,
    decreases n,
{
    lemma_decimal_digits_facts(n);
    if n >= 10 {
        lemma_decimal_digits_value(n / 10);
        let s = decimal_digits(n);
        assert(s.drop_last() =~= decimal_digits(n / 10));
        assert(s.last() == digit_char((n % 10) as int));
        assert(digit_value(digit_char((n % 10) as int)) == n % 10);
        assert(digits_value(s) == digits_value(s.drop_last()) * 10 + digit_value(s.last()));
        assert(n == (n / 10) * 10 + n % 10);
    } else {
        let s = decimal_digits(n);
        assert(s.drop_last() =~= Seq::<char>::empty());
        assert(digit_value(digit_char(n as int)) == n);
        assert(digits_value(s) == digits_value(s.drop_last()) * 10 + digit_value(s.last()));
    }
}

/// Leading zeros do not change the number a string of digits writes.
pub proof fn lemma_leading_zeros_value(k: nat, s: Seq<char>)
    ensures
        digits_value(Seq::new(k, |i: int| '0') + s) == digits_value(s),
    decreases s.len(), k,
{
    let z = Seq::new(k, |i: int| '0');
    if s.len() > 0 {
        lemma_leading_zeros_value(k, s.drop_last());
        assert((z + s).drop_last() =~= z + s.drop_last());
        assert((z + s).last() == s.last());
    } else if k > 0 {
        let z1 = Seq::new((k - 1) as nat, |i: int| '0');
        lemma_leading_zeros_value((k - 1) as nat, s);
        assert((z + s).drop_last() =~= z1 + s);
        assert(z1 + s =~= z1);
        assert(z + s =~= z);
    } else {
        assert(z + s =~= s);
    }
}

/// A zero-padded non-negative number is a string of digits that writes it.
pub proof fn lemma_zero_padded_digits(v: nat, width: int)
    ensures
        all_digits(fmt_zero_padded(v as int, width)),
        digits_value(fmt_zero_padded(v as int, width)) == v,
        fmt_zero_padded(v as int, width).len() == if decimal_digits(v).len() >= width {
            decimal_digits(v).len() as int
        } else {
            width
        },
{
    let d = decimal_digits(v);
    lemma_decimal_digits_value(v);
    if d.len() < width {
        let k = (width - d.len()) as nat;
        lemma_leading_zeros_value(k, d);
        let p = Seq::new(k, |i: int| '0') + d;
        assert forall|i: int| 0 <= i < p.len() implies is_digit(#[trigger] p[i]) by {
            if i >= k {
                assert(p[i] == d[i - k]);
            }
        }
    }
}

/// Every character is below 128.
pub open spec fn is_ascii_text(s: Seq<char>) -> bool {
    forall|i: int| 0 <= i < s.len() ==> (#[trigger] s[i] as u32) < 128
}

/// UTF-8 encodes a concatenation piece by piece.
pub proof fn lemma_encode_utf8_concat(a: Seq<char>, b: Seq<char>)
    ensures
        vstd::utf8::encode_utf8(a + b) == vstd::utf8::encode_utf8(a) + vstd::utf8::encode_utf8(b),
    decreases a.len(),
{
    if a.len() == 0 {
        assert(a + b =~= b);
        assert(vstd::utf8::encode_utf8(a) =~= Seq::<u8>::empty());
        assert(vstd::utf8::encode_utf8(a) + vstd::utf8::encode_utf8(b) =~= vstd::utf8::encode_utf8(b));
    } else {
        lemma_encode_utf8_concat(a.drop_first(), b);
        assert((a + b).drop_first() =~= a.drop_first() + b);
        assert((a + b)[0] == a[0]);
        let h = vstd::utf8::encode_scalar(a[0] as u32);
        assert(vstd::utf8::encode_utf8(a + b) =~= h + vstd::utf8::encode_utf8(a.drop_first() + b));
        assert(vstd::utf8::encode_utf8(a) =~= h + vstd::utf8::encode_utf8(a.drop_first()));
    }
}

/// ASCII text takes one byte per character.
pub proof fn lemma_encode_utf8_ascii_len(s: Seq<char>)
    requires
        is_ascii_text(s),
    ensures
        vstd::utf8::encode_utf8(s).len() == s.len(),
    decreases s.len(),
{
    if s.len() > 0 {
        assert((s[0] as u32) < 128);
        assert(vstd::utf8::has_width_1_encoding(s[0] as u32));
        assert forall|i: int| 0 <= i < s.drop_first().len() implies (#[trigger] s.drop_first()[i]
            as u32) < 128 by {
            assert(s.drop_first()[i] == s[i + 1]);
        }
        lemma_encode_utf8_ascii_len(s.drop_first());
    }
}

/// A text that begins with seven ASCII characters `p` has `p` as its first
/// seven bytes, and those bytes are whole characters.
pub proof fn lemma_ascii_prefix7(s: &str, p: Seq<char>, rest: Seq<char>)
    requires
        s@ == p + rest,
        p.len() == 7,
        is_ascii_text(p),
    ensures
        s.spec_bytes().len() >= 7,
        vstd::utf8::valid_utf8(s.spec_bytes().take(7)),
        vstd::utf8::decode_utf8(s.spec_bytes().take(7)) == p,
{
    lemma_encode_utf8_concat(p, rest);
    lemma_encode_utf8_ascii_len(p);
    let ep = vstd::utf8::encode_utf8(p);
    assert(s.spec_bytes() == ep + vstd::utf8::encode_utf8(rest));
    assert(s.spec_bytes().take(7) =~= ep);
    vstd::utf8::encode_utf8_valid_utf8(p);
    vstd::utf8::encode_utf8_decode_utf8(p);
}

/// `first_index_from` finds the first occurrence after `from`.
pub proof fn lemma_first_index_from_at(s: Seq<char>, c: char, from: int, i: int)
    requires
        0 <= from <= i < s.len(),
        s[i] == c,
        forall|j: int| from <= j < i ==> s[j] != c,
    ensures
        first_index_from(s, c, from) == Some(i),
    decreases i - from,
{
    if from < i {
        lemma_first_index_from_at(s, c, from + 1, i);
    }
}

// ---------------------------------------------------------------------------
// Executable helpers
// ---------------------------------------------------------------------------

/// Copy the characters of a string slice into a vector.
pub fn chars_of(s: &str) -> (v: Vec<char>)
    ensures
        v@ == s@,
{
    let mut v: Vec<char> = Vec::new();
    for c in it: s.chars()
        invariant
            v@ == it.seq().take(it.index() as int),
    {
        v.push(c);
    }
    v
}

/// `a == b` on string slices, compared character by character.
pub fn str_equals(a: &str, b: &str) -> (r: bool)
    ensures
        r == (a@ == b@),
{
    let va = chars_of(a);
    let vb = chars_of(b);
    if va.len() != vb.len() {
        return false;
    }
    let mut i: usize = 0;
    while i < va.len()
        invariant
            va@ == a@,
            vb@ == b@,
            va.len() == vb.len(),
            0 <= i <= va.len(),
            forall|j: int| 0 <= j < i ==> va@[j] == vb@[j],
        decreases va.len() - i,
    {
        if va[i] != vb[i] {
            return false;
        }
        i = i + 1;
    }
    assert(va@ =~= vb@);
    true
}

/// Position of the first `c` at or after `from` in `v`.
pub fn find_char_from(v: &Vec<char>, c: char, from: usize) -> (r: Option<usize>)
    requires
        from <= v.len(),
    ensures
        match r {
            Some(i) => first_index_from(v@, c, from as int) == Some(i as int) && i < v.len(),
            None => first_index_from(v@, c, from as int) is None,
        },
{
    let mut i = from;
    while i < v.len()
        invariant
            from <= i <= v.len(),
            first_index_from(v@, c, from as int) == first_index_from(v@, c, i as int),
        decreases v.len() - i,
    {
        if v[i] == c {
            return Some(i);
        }
        i = i + 1;
    }
    assert(first_index_from(v@, c, i as int) is None);
    None
}

/// Parse `v[lo..hi]` as the magnitude of a decimal number no larger than `limit`.
/// Returns `None` when a character is not a digit, when the range is empty,
/// or when the value exceeds `limit`.
fn parse_magnitude(v: &Vec<char>, lo: usize, hi: usize, limit: u64) -> (r: Option<u64>)
    requires
        lo <= hi <= v.len(),
        limit >= 9,
    ensures
        ({
            let s = v@.subrange(lo as int, hi as int);
            match r {
                Some(n) => s.len() > 0 && all_digits(s) && n == digits_value(s) && n <= limit,
                None => !(s.len() > 0 && all_digits(s) && digits_value(s) <= limit),
            }
        }),
{
    let ghost s = v@.subrange(lo as int, hi as int);
    if lo == hi {
        return None;
    }
    let mut acc: u64 = 0;
    let mut i = lo;
    while i < hi
        invariant
            lo <= i <= hi <= v.len(),
            s == v@.subrange(lo as int, hi as int),
            all_digits(s.take(i - lo)),
            acc == digits_value(s.take(i - lo)),
            acc <= limit,
            limit >= 9,
        decreases hi - i,
    {
        let c = v[i];
        if c < '0' || c > '9' {
            proof {
                assert(s[i - lo] == c);
            }
            return None;
        }
        let d = (c as u32 - '0' as u32) as u64;
        proof {
            let t = s.take(i - lo + 1);
            assert(t.drop_last() =~= s.take(i - lo));
            assert(t.last() == c);
            assert(all_digits(t));
        }
        if acc > (limit - d) / 10 {
            proof {
                let t = s.take(i - lo + 1);
                assert(t.drop_last() =~= s.take(i - lo));
                assert(digits_value(t) == acc * 10 + d);
                assert(acc * 10 + d > limit) by (nonlinear_arith)
                    requires
                        acc > (limit - d) / 10,
                        d <= 9,
                        d <= limit || true,
                ;
                if all_digits(s) {
                    lemma_digits_value_prefix_monotone(s, i - lo + 1);
                }
            }
            return None;
        }
        proof {
            let t = s.take(i - lo + 1);
            assert(t.drop_last() =~= s.take(i - lo));
            assert(acc * 10 + d <= limit) by (nonlinear_arith)
                requires
                    acc <= (limit - d) / 10,
                    d <= limit,
            ;
        }
        acc = acc * 10 + d;
        i = i + 1;
    }
    proof {
        assert(s.take(hi - lo) =~= s);
    }
    Some(acc)
}

/// `v[lo..hi].parse::<i64>()`, as an option.
pub fn parse_i64_in(v: &Vec<char>, lo: usize, hi: usize) -> (r: Option<i64>)
    requires
        lo <= hi <= v.len(),
    ensures
        r == spec_parse_i64(v@.subrange(lo as int, hi as int)),
{
    let ghost s = v@.subrange(lo as int, hi as int);
    if lo == hi {
        return None;
    }
    let first = v[lo];
    assert(s[0] == first);
    if first == '-' {
        assert(s.drop_first() =~= v@.subrange(lo + 1, hi as int));
        // |i64::MIN| = 2^63
        match parse_magnitude(v, lo + 1, hi, 9223372036854775808u64) {
            Some(n) => {
                if n == 9223372036854775808u64 {
                    Some(i64::MIN)
                } else {
                    Some(-(n as i64))
                }
            },
            None => None,
        }
    } else if first == '+' {
        assert(s.drop_first() =~= v@.subrange(lo + 1, hi as int));
        match parse_magnitude(v, lo + 1, hi, 9223372036854775807u64) {
            Some(n) => Some(n as i64),
            None => None,
        }
    } else {
        match parse_magnitude(v, lo, hi, 9223372036854775807u64) {
            Some(n) => Some(n as i64),
            None => None,
        }
    }
}

/// `v[lo..hi].parse::<u32>()`, as an option.
pub fn parse_u32_in(v: &Vec<char>, lo: usize, hi: usize) -> (r: Option<u32>)
    requires
        lo <= hi <= v.len(),
    ensures
        r == spec_parse_u32(v@.subrange(lo as int, hi as int)),
{
    let ghost s = v@.subrange(lo as int, hi as int);
    if lo == hi {
        return None;
    }
    let first = v[lo];
    assert(s[0] == first);
    let start = if first == '+' { lo + 1 } else { lo };
    assert(first == '+' ==> s.drop_first() =~= v@.subrange(lo + 1, hi as int));
    match parse_magnitude(v, start, hi, 4294967295u64) {
        Some(n) => Some(n as u32),
        None => None,
    }
}

fn append_digit(out: &mut String, d: u64)
    requires
        d < 10,
    ensures
        final(out)@ == old(out)@.push(digit_char(d as int)),
{
    let s: &str = if d == 0 {
        proof { reveal_strlit("0"); }
        "0"
    } else if d == 1 {
        proof { reveal_strlit("1"); }
        "1"
    } else if d == 2 {
        proof { reveal_strlit("2"); }
        "2"
    } else if d == 3 {
        proof { reveal_strlit("3"); }
        "3"
    } else if d == 4 {
        proof { reveal_strlit("4"); }
        "4"
    } else if d == 5 {
        proof { reveal_strlit("5"); }
        "5"
    } else if d == 6 {
        proof { reveal_strlit("6"); }
        "6"
    } else if d == 7 {
        proof { reveal_strlit("7"); }
        "7"
    } else if d == 8 {
        proof { reveal_strlit("8"); }
        "8"
    } else {
        proof { reveal_strlit("9"); }
        "9"
    };
    assert(s@ =~= seq![digit_char(d as int)]);
    out.append(s);
}

/// Append the decimal digits of `n`.
pub fn append_decimal(out: &mut String, n: u64)
    ensures
        final(out)@ == old(out)@ + decimal_digits(n as nat),
    decreases n,
{
    if n >= 10 {
        append_decimal(out, n / 10);
        append_digit(out, n % 10);
        assert(old(out)@ + decimal_digits(n as nat) =~= old(out)@ + decimal_digits((n / 10) as nat)
            + seq![digit_char((n % 10) as int)]);
    } else {
        append_digit(out, n);
        assert(old(out)@ + decimal_digits(n as nat) =~= old(out)@.push(digit_char(n as int)));
    }
}

/// Number of decimal digits of `n`.
pub fn decimal_len(n: u64) -> (r: usize)
    ensures
        r == decimal_digits(n as nat).len(),
        1 <= r <= 20,
    decreases n,
{
    if n >= 10 {
        let k = decimal_len(n / 10);
        if k >= 20 {
            // ten decimal digits of magnitude per power: a u64 has at most 20
            proof {
                lemma_decimal_len_bound(n as nat);
            }
        }
        k + 1
    } else {
        1
    }
}

proof fn lemma_decimal_len_bound(n: nat)
    requires
        n <= u64::MAX,
    ensures
        decimal_digits(n).len() <= 20,
{
    reveal_with_fuel(pow10, 21);
    assert(pow10(20) == 100000000000000000000);
    lemma_decimal_len_pow(n, 20);
}

proof fn lemma_decimal_len_pow(n: nat, k: nat)
    requires
        n < pow10(k),
        k >= 1,
    ensures
        decimal_digits(n).len() <= k,
    decreases k,
{
    if n >= 10 {
        assert(n / 10 < pow10((k - 1) as nat)) by {
            if k == 1 {
                assert(pow10(1) == 10 * pow10(0));
            } else {
                assert(pow10(k) == 10 * pow10((k - 1) as nat));
            }
        }
        if k == 1 {
            assert(pow10(1) == 10 * pow10(0));
        } else {
            lemma_decimal_len_pow(n / 10, (k - 1) as nat);
        }
    }
}

pub open spec fn pow10(k: nat) -> nat
    decreases k,
{
    if k == 0 {
        1
    } else {
        10 * pow10((k - 1) as nat)
    }
}

/// Append `n` zero characters.
pub fn append_zeros(out: &mut String, n: usize)
    ensures
        final(out)@ == old(out)@ + Seq::new(n as nat, |i: int| '0'),
{
    proof { reveal_strlit("0"); }
    let mut k: usize = 0;
    while k < n
        invariant
            0 <= k <= n,
            out@ == old(out)@ + Seq::new(k as nat, |i: int| '0'),
        decreases n - k,
    {
        proof { reveal_strlit("0"); }
        out.append("0");
        k = k + 1;
        assert(out@ =~= old(out)@ + Seq::new(k as nat, |i: int| '0'));
    }
}

/// Append `v` formatted as `format!("{:0width$}", v)` would write it.
pub fn append_zero_padded(out: &mut String, v: i64, width: usize)
    requires
        width <= 64,
    ensures
        final(out)@ == old(out)@ + fmt_zero_padded(v as int, width as int),
{
    let neg = v < 0;
    let mag: u64 = if neg {
        ((-(v + 1)) as u64) + 1
    } else {
        v as u64
    };
    let len = decimal_len(mag);
    if neg {
        proof { reveal_strlit("-"); }
        out.append("-");
        let w = if width >= 1 { width - 1 } else { 0 };
        if len < w {
            append_zeros(out, w - len);
        }
        append_decimal(out, mag);
        proof {
            let ds = decimal_digits(mag as nat);
            if len < w {
                assert(zero_pad(ds, width - 1) =~= Seq::new((w - len) as nat, |i: int| '0') + ds);
            } else {
                assert(zero_pad(ds, width - 1) =~= ds);
            }
            assert(final(out)@ =~= old(out)@ + fmt_zero_padded(v as int, width as int));
        }
    } else {
        if len < width {
            append_zeros(out, width - len);
        }
        append_decimal(out, mag);
        proof {
            let ds = decimal_digits(mag as nat);
            if len < width {
                assert(zero_pad(ds, width as int) =~= Seq::new((width - len) as nat, |i: int| '0') + ds);
            } else {
                assert(zero_pad(ds, width as int) =~= ds);
            }
            assert(final(out)@ =~= old(out)@ + fmt_zero_padded(v as int, width as int));
        }
    }
}

/// `std::str::from_utf8(bytes).ok()`.
///
/// Trusted: `from_utf8` returns `Ok` exactly when the bytes are valid UTF-8,
/// and then a string slice over those same bytes.
#[verifier::external_body]
pub(crate) fn utf8_str(bytes: &[u8]) -> (r: Option<&str>)
    ensures
        r is Some <==> vstd::utf8::valid_utf8(bytes@),
        r matches Some(s) ==> s.spec_bytes() == bytes@,
{
    std::str::from_utf8(bytes).ok()
}

/// An ASCII letter or digit.
pub open spec fn is_ascii_alphanumeric(c: char) -> bool {
    ('a' <= c && c <= 'z') || ('A' <= c && c <= 'Z') || ('0' <= c && c <= '9')
}

/// What `char::is_alphanumeric` answers for a character beyond ASCII (the
/// Unicode `Alphabetic` or `Numeric` property).
pub uninterp spec fn unicode_alphanumeric(c: char) -> bool;

/// What `char::is_alphanumeric` answers: for an ASCII character, whether it is
/// a letter or a digit; beyond ASCII, the Unicode property.
pub open spec fn char_is_alphanumeric(c: char) -> bool {
    if (c as u32) < 128 {
        is_ascii_alphanumeric(c)
    } else {
        unicode_alphanumeric(c)
    }
}

/// `c.is_alphanumeric()`.
///
/// Trusted: an ASCII character is alphanumeric exactly when it is a letter or
/// a digit, as std documents; beyond ASCII the answer depends on the character
/// alone, by the Unicode property table std carries, which is named here and
/// not spelled out.
#[verifier::external_body]
pub(crate) fn is_alphanumeric(c: char) -> (r: bool)
    ensures
        (c as u32) < 128 ==> r == is_ascii_alphanumeric(c),
        (c as u32) >= 128 ==> r == unicode_alphanumeric(c),
{
    c.is_alphanumeric()
}

/// The ASCII lowercase of a character: `A`..=`Z` become `a`..=`z`, every other
/// character stays.
pub open spec fn ascii_lower_char(c: char) -> char {
    if 'A' <= c && c <= 'Z' {
        ((c as u32) + 32) as char
    } else {
        c
    }
}

/// What `str::to_lowercase` returns for a text that is not all ASCII (full
/// Unicode lowercase mapping, including the final-sigma rule).
pub uninterp spec fn unicode_lowercase(s: Seq<char>) -> Seq<char>;

/// What `str::to_lowercase` returns: for an all-ASCII text, each character's
/// ASCII lowercase; otherwise the Unicode mapping.
pub open spec fn lowercase(s: Seq<char>) -> Seq<char> {
    if is_ascii_text(s) {
        s.map_values(|c: char| ascii_lower_char(c))
    } else {
        unicode_lowercase(s)
    }
}

/// `s.to_lowercase()`.
///
/// Trusted: on an all-ASCII text the result maps `A`..=`Z` to `a`..=`z` and
/// keeps every other character, as std documents; on any other text it
/// depends on the text alone, by the Unicode case mapping std applies, which
/// is named here and not spelled out.
#[verifier::external_body]
pub(crate) fn to_lowercase(s: &str) -> (r: String)
    ensures
        is_ascii_text(s@) ==> r@ == s@.map_values(|c: char| ascii_lower_char(c)),
        !is_ascii_text(s@) ==> r@ == unicode_lowercase(s@),
{
    s.to_lowercase()
}

/// Append a string slice (a convenience over `String::append`).
pub fn append_str(out: &mut String, s: &str)
    ensures
        final(out)@ == old(out)@ + s@,
{
    out.append(s);
}

/// `char::is_whitespace`.
pub fn char_is_white_space(c: char) -> (r: bool)
    ensures
        r == is_white_space(c),
{
    ('\t' <= c && c <= '\r') || c == ' ' || c == '\u{85}' || c == '\u{A0}' || c == '\u{1680}'
        || ('\u{2000}' <= c && c <= '\u{200A}') || c == '\u{2028}' || c == '\u{2029}'
        || c == '\u{202F}' || c == '\u{205F}' || c == '\u{3000}'
}

/// The bounds `[lo, hi)` of `s.trim()` within `v`.
pub fn trim_bounds(v: &Vec<char>) -> (r: (usize, usize))
    ensures
        r.0 <= r.1 <= v.len(),
        v@.subrange(r.0 as int, r.1 as int) == trimmed(v@),
{
    let mut lo: usize = 0;
    assert(v@.skip(0) =~= v@);
    while lo < v.len() && char_is_white_space(v[lo])
        invariant
            0 <= lo <= v.len(),
            trim_start(v@) == trim_start(v@.skip(lo as int)),
        decreases v.len() - lo,
    {
        assert(v@.skip(lo as int).drop_first() =~= v@.skip(lo + 1));
        lo = lo + 1;
    }
    assert(trim_start(v@.skip(lo as int)) == v@.skip(lo as int));
    let mut hi: usize = v.len();
    assert(v@.skip(lo as int) =~= v@.subrange(lo as int, hi as int));
    while hi > lo && char_is_white_space(v[hi - 1])
        invariant
            lo <= hi <= v.len(),
            trimmed(v@) == trim_end(v@.subrange(lo as int, hi as int)),
        decreases hi,
    {
        assert(v@.subrange(lo as int, hi as int).drop_last() =~= v@.subrange(lo as int, hi - 1));
        hi = hi - 1;
    }
    (lo, hi)
}

/// Whether `needle` occurs in `hay`.
pub fn contains_chars(hay: &Vec<char>, needle: &Vec<char>) -> (r: bool)
    ensures
        r == contains_seq(hay@, needle@),
{
    if needle.len() > hay.len() {
        return false;
    }
    if needle.len() == 0 {
        assert(hay@.subrange(0, 0 + needle.len()) =~= needle@);
        return true;
    }
    let last = hay.len() - needle.len();
    let mut i: usize = 0;
    while i <= last
        invariant
            last == hay.len() - needle.len(),
            needle.len() <= hay.len(),
            needle.len() >= 1,
            0 <= i <= last + 1,
            forall|q: int| 0 <= q < i ==> #[trigger] hay@.subrange(q, q + needle.len()) != needle@,
        decreases last + 1 - i,
    {
        let mut k: usize = 0;
        let mut same = true;
        while k < needle.len()
            invariant
                i <= last,
                last == hay.len() - needle.len(),
                0 <= k <= needle.len(),
                same ==> forall|q: int| 0 <= q < k ==> hay@[i + q] == needle@[q],
                !same ==> hay@.subrange(i as int, i + needle.len()) != needle@,
            decreases needle.len() - k,
        {
            if hay[i + k] != needle[k] {
                assert(hay@.subrange(i as int, i + needle.len())[k as int] != needle@[k as int]);
                same = false;
            }
            k = k + 1;
        }
        if same {
            assert(hay@.subrange(i as int, i + needle.len()) =~= needle@);
            return true;
        }
        i = i + 1;
    }
    proof {
        if contains_seq(hay@, needle@) {
            let q = choose|q: int|
                0 <= q && q + needle.len() <= hay.len() && #[trigger] hay@.subrange(q, q + needle.len())
                    == needle@;
            assert(q <= last);
        }
    }
    false
}

/// `s.trim().is_empty()`: true exactly when every character is white space.
pub fn is_blank(s: &str) -> (r: bool)
    ensures
        r == all_white_space(s@),
{
    let v = chars_of(s);
    let mut i: usize = 0;
    while i < v.len()
        invariant
            v@ == s@,
            0 <= i <= v.len(),
            forall|j: int| 0 <= j < i ==> is_white_space(#[trigger] v@[j]),
        decreases v.len() - i,
    {
        if !char_is_white_space(v[i]) {
            return false;
        }
        i = i + 1;
    }
    true
}

} // verus!
