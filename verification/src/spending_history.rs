//! Month bucketing, complete-month ranges and the fixed-category taxonomy used
//! by the spending-history report.
//!
//! ## Fixed vs. discretionary taxonomy
//!
//! FIXED categories represent non-negotiable recurring obligations:
//! mortgage/rent, insurance, utilities, auto/loan payments, and recurring
//! medical/dental. Everything else is DISCRETIONARY. A category is fixed when
//! one of the patterns appears in its name as whole words, case-insensitively.

use vstd::prelude::*;
use vstd::string::{StrSliceExecFns, StringSliceAdditionalSpecFns};
use vstd::slice::slice_subrange;
use vstd::utf8::{decode_utf8, encode_utf8_decode_utf8, valid_utf8};

use crate::calendar::{
    epoch_day_in_range, epoch_days_to_ymd, fmt_ymd, format_ymd, days_in_month, month_labels_between,
    month_length, months_back, parse_ym, spec_parse_ym, subtract_months, ym_walk, ymd_of_epoch_day,
};
use crate::calendar::{fmt_ym, month_index, month_of_index, year_of_index};
use crate::text::fmt_zero_padded;
use crate::text::{utf8_str, chars_of, char_is_alphanumeric, is_alphanumeric, lowercase, to_lowercase,
    ascii_lower_char, is_ascii_text,
    lemma_decode_utf8_len, lemma_first_index_from_found, lemma_parse_i64_short,
    lemma_parse_u32_short, split_once_dash, first_index_from};

verus! {

broadcast use vstd::string::group_string_axioms;

// ---------------------------------------------------------------------------
// Fixed-category taxonomy
// ---------------------------------------------------------------------------

/// The whole-word patterns that identify FIXED spending categories:
/// housing (`mortgage`, `rent`), `insurance`, utilities (`utilities`,
/// `utility`), debt service (`loan`) and recurring healthcare (`medical`,
/// `dental`).
pub open spec fn fixed_category_pattern_view(k: int) -> Seq<char> {
    if k == 0 {
        "mortgage"@
    } else if k == 1 {
        "rent"@
    } else if k == 2 {
        "insurance"@
    } else if k == 3 {
        "utilities"@
    } else if k == 4 {
        "utility"@
    } else if k == 5 {
        "loan"@
    } else if k == 6 {
        "medical"@
    } else {
        "dental"@
    }
}

/// Number of fixed-category patterns.
pub const FIXED_CATEGORY_PATTERN_COUNT: usize = 8;

/// The `k`-th fixed-category pattern.
pub fn fixed_category_pattern(k: usize) -> (r: &'static str)
    requires
        k < FIXED_CATEGORY_PATTERN_COUNT,
    ensures
        r@ == fixed_category_pattern_view(k as int),
{
    if k == 0 {
        "mortgage"
    } else if k == 1 {
        "rent"
    } else if k == 2 {
        "insurance"
    } else if k == 3 {
        "utilities"
    } else if k == 4 {
        "utility"
    } else if k == 5 {
        "loan"
    } else if k == 6 {
        "medical"
    } else {
        "dental"
    }
}

/// End of the run of alphanumeric characters starting at `i`.
pub open spec fn run_end(s: Seq<char>, i: int) -> int
    decreases s.len() - i,
{
    if 0 <= i < s.len() && char_is_alphanumeric(s[i]) {
        run_end(s, i + 1)
    } else {
        i
    }
}

pub proof fn lemma_run_end(s: Seq<char>, i: int)
    requires
        0 <= i <= s.len(),
    ensures
        i <= run_end(s, i) <= s.len(),
        forall|j: int| i <= j < run_end(s, i) ==> char_is_alphanumeric(#[trigger] s[j]),
        run_end(s, i) < s.len() ==> !char_is_alphanumeric(s[run_end(s, i)]),
    decreases s.len() - i,
{
    if i < s.len() && char_is_alphanumeric(s[i]) {
        lemma_run_end(s, i + 1);
    }
}

/// The maximal runs of alphanumeric characters from position `i` on: the text
/// split at every non-alphanumeric character, with empty pieces dropped.
pub open spec fn alnum_runs_from(s: Seq<char>, i: int) -> Seq<Seq<char>>
    decreases s.len() - i,
{
    if i < 0 || i >= s.len() {
        seq![]
    } else if !char_is_alphanumeric(s[i]) {
        alnum_runs_from(s, i + 1)
    } else {
        let j = run_end(s, i + 1);
        proof {
            lemma_run_end(s, i + 1);
        }
        seq![s.subrange(i, j)] + alnum_runs_from(s, j)
    }
}

/// The lowercase word tokens of a category name: its alphanumeric runs, each
/// lowercased.
pub open spec fn spec_category_tokens(name: Seq<char>) -> Seq<Seq<char>> {
    alnum_runs_from(name, 0).map_values(|t: Seq<char>| lowercase(t))
}

/// Whether `pattern` occurs as a contiguous run of whole tokens in `tokens`.
pub open spec fn has_token_window(tokens: Seq<Seq<char>>, pattern: Seq<Seq<char>>) -> bool {
    exists|i: int|
        0 <= i && i + pattern.len() <= tokens.len() && #[trigger] tokens.subrange(i, i + pattern.len())
            == pattern
}

/// A category is fixed when some pattern's (non-empty) token sequence occurs in
/// the category's token sequence.
pub open spec fn spec_is_fixed_category(name: Seq<char>) -> bool {
    exists|k: int|
        0 <= k < 8 && {
            let pt = #[trigger] spec_category_tokens(fixed_category_pattern_view(k));
            pt.len() > 0 && has_token_window(spec_category_tokens(name), pt)
        }
}

/// Tokenize a category name into lowercase words split on non-alphanumeric
/// characters.
pub fn category_tokens(name: &str) -> (r: Vec<String>)
    ensures
        r@.map_values(|t: String| t@) == spec_category_tokens(name@),
{
    let v = chars_of(name);
    let ghost s = v@;
    let mut tokens: Vec<String> = Vec::new();
    let mut i: usize = 0;
    while i < v.len()
        invariant
            v@ == s,
            s == name@,
            0 <= i <= v.len(),
            tokens@.map_values(|t: String| t@) + alnum_runs_from(s, i as int).map_values(
                |t: Seq<char>| lowercase(t),
            ) == spec_category_tokens(name@),
        decreases v.len() - i,
    {
        if !is_alphanumeric(v[i]) {
            i = i + 1;
        } else {
            let mut j = i + 1;
            proof {
                lemma_run_end(s, i + 1);
            }
            while j < v.len() && is_alphanumeric(v[j])
                invariant
                    v@ == s,
                    i < j <= v.len(),
                    run_end(s, j as int) == run_end(s, i + 1),
                decreases v.len() - j,
            {
                j = j + 1;
            }
            proof {
                assert(run_end(s, j as int) == j);
            }
            let word = name.substring_char(i, j);
            let lower = to_lowercase(word);
            let ghost before = tokens@.map_values(|t: String| t@);
            tokens.push(lower);
            proof {
                let rest = alnum_runs_from(s, j as int);
                assert(alnum_runs_from(s, i as int) == seq![s.subrange(i as int, j as int)] + rest);
                assert(tokens@.map_values(|t: String| t@) =~= before.push(lowercase(s.subrange(i as int, j as int))));
                assert((seq![s.subrange(i as int, j as int)] + rest).map_values(|t: Seq<char>| lowercase(t))
                    =~= seq![lowercase(s.subrange(i as int, j as int))] + rest.map_values(|t: Seq<char>| lowercase(t)));
                assert(before.push(lowercase(s.subrange(i as int, j as int))) + rest.map_values(|t: Seq<char>| lowercase(t))
                    =~= before + (seq![lowercase(s.subrange(i as int, j as int))] + rest.map_values(|t: Seq<char>| lowercase(t))));
            }
            i = j;
        }
    }
    proof {
        assert(alnum_runs_from(s, i as int) =~= Seq::<Seq<char>>::empty());
        assert(tokens@.map_values(|t: String| t@) =~= tokens@.map_values(|t: String| t@) + Seq::<Seq<char>>::empty());
    }
    tokens
}

/// `tokens[start..start + pattern.len()] == pattern`, compared token by token.
fn window_matches(tokens: &Vec<String>, start: usize, pattern: &Vec<String>) -> (r: bool)
    requires
        start + pattern.len() <= tokens.len(),
    ensures
        r == (tokens@.map_values(|t: String| t@).subrange(start as int, start + pattern.len())
            == pattern@.map_values(|t: String| t@)),
{
    let ghost tv = tokens@.map_values(|t: String| t@);
    let ghost pv = pattern@.map_values(|t: String| t@);
    let mut k: usize = 0;
    while k < pattern.len()
        invariant
            start + pattern.len() <= tokens.len(),
            tv == tokens@.map_values(|t: String| t@),
            pv == pattern@.map_values(|t: String| t@),
            0 <= k <= pattern.len(),
            forall|q: int| 0 <= q < k ==> tv[start + q] == pv[q],
        decreases pattern.len() - k,
    {
        if tokens[start + k] != pattern[k] {
            proof {
                assert(tv.subrange(start as int, start + pattern.len())[k as int] != pv[k as int]);
            }
            return false;
        }
        k = k + 1;
    }
    assert(tv.subrange(start as int, start + pattern.len()) =~= pv);
    true
}

/// Returns `true` when a category name contains a fixed-spending pattern as
/// complete word tokens (whole-word match, case-insensitive).
///
/// Both the category name and each pattern are split on non-alphanumeric
/// characters, and the pattern's token sequence must appear as a contiguous
/// run of the category's tokens. "Concert Rentals" therefore does not match
/// `rent`, nor "Accidental Purchases" `dental`.
pub fn is_fixed_category(category_name: &str) -> (r: bool)
    ensures
        r == spec_is_fixed_category(category_name@),
{
    let name_tokens = category_tokens(category_name);
    let ghost nt = name_tokens@.map_values(|t: String| t@);
    let mut k: usize = 0;
    while k < FIXED_CATEGORY_PATTERN_COUNT
        invariant
            0 <= k <= 8,
            nt == name_tokens@.map_values(|t: String| t@),
            nt == spec_category_tokens(category_name@),
            forall|q: int|
                0 <= q < k ==> !({
                    let pt = #[trigger] spec_category_tokens(fixed_category_pattern_view(q));
                    pt.len() > 0 && has_token_window(nt, pt)
                }),
        decreases 8 - k,
    {
        let pattern_tokens = category_tokens(fixed_category_pattern(k));
        let ghost pt = pattern_tokens@.map_values(|t: String| t@);
        if pattern_tokens.len() > 0 && pattern_tokens.len() <= name_tokens.len() {
            let last = name_tokens.len() - pattern_tokens.len();
            let mut i: usize = 0;
            while i <= last
                invariant
                    last == name_tokens.len() - pattern_tokens.len(),
                    pattern_tokens.len() <= name_tokens.len(),
                    pattern_tokens.len() > 0,
                    k < 8,
                    pt.len() == pattern_tokens.len(),
                    nt == spec_category_tokens(category_name@),
                    pt == spec_category_tokens(fixed_category_pattern_view(k as int)),
                    0 <= i <= last + 1,
                    nt == name_tokens@.map_values(|t: String| t@),
                    pt == pattern_tokens@.map_values(|t: String| t@),
                    forall|q: int| 0 <= q < i ==> #[trigger] nt.subrange(q, q + pt.len()) != pt,
                decreases last + 1 - i,
            {
                if window_matches(&name_tokens, i, &pattern_tokens) {
                    proof {
                        assert(nt.subrange(i as int, i + pt.len()) == pt);
                        assert(has_token_window(nt, pt));
                        assert(spec_category_tokens(fixed_category_pattern_view(k as int)) == pt);
                        let kk = k as int;
                        assert(0 <= kk < 8 && {
                            let pt2 = spec_category_tokens(fixed_category_pattern_view(kk));
                            pt2.len() > 0 && has_token_window(spec_category_tokens(category_name@), pt2)
                        });
                    }
                    return true;
                }
                i = i + 1;
            }
            proof {
                assert(!has_token_window(nt, pt)) by {
                    if has_token_window(nt, pt) {
                        let q = choose|q: int|
                            0 <= q && q + pt.len() <= nt.len() && #[trigger] nt.subrange(q, q + pt.len()) == pt;
                        assert(q < i);
                    }
                }
            }
        } else {
            proof {
                assert(!(pt.len() > 0 && has_token_window(nt, pt)));
            }
        }
        k = k + 1;
    }
    false
}

/// A non-empty word of lowercase ASCII letters is its own single token.
proof fn lemma_lowercase_word_tokens(w: Seq<char>)
    requires
        w.len() > 0,
        forall|j: int| 0 <= j < w.len() ==> 'a' <= #[trigger] w[j] && w[j] <= 'z',
    ensures
        spec_category_tokens(w) == seq![w],
{
    assert forall|j: int| 1 <= j <= w.len() implies run_end(w, j) == w.len() by {
        lemma_run_end_to_end(w, j);
    }
    assert(w.subrange(0, w.len() as int) =~= w);
    assert(alnum_runs_from(w, w.len() as int) =~= Seq::<Seq<char>>::empty());
    assert(alnum_runs_from(w, 0) =~= seq![w]);
    assert(is_ascii_text(w));
    assert(w.map_values(|c: char| ascii_lower_char(c)) =~= w);
    assert(lowercase(w) == w);
    assert(seq![w].map_values(|t: Seq<char>| lowercase(t)) =~= seq![w]);
}

proof fn lemma_run_end_to_end(w: Seq<char>, j: int)
    requires
        0 <= j <= w.len(),
        forall|q: int| 0 <= q < w.len() ==> 'a' <= #[trigger] w[q] && w[q] <= 'z',
    ensures
        run_end(w, j) == w.len(),
    decreases w.len() - j,
{
    if j < w.len() {
        assert(char_is_alphanumeric(w[j]));
        lemma_run_end_to_end(w, j + 1);
    }
}

/// Each fixed-category pattern is a single lowercase word.
proof fn lemma_pattern_tokens(k: int)
    requires
        0 <= k < 8,
    ensures
        spec_category_tokens(fixed_category_pattern_view(k)) == seq![fixed_category_pattern_view(k)],
{
    reveal_strlit("mortgage");
    reveal_strlit("rent");
    reveal_strlit("insurance");
    reveal_strlit("utilities");
    reveal_strlit("utility");
    reveal_strlit("loan");
    reveal_strlit("medical");
    reveal_strlit("dental");
    lemma_lowercase_word_tokens(fixed_category_pattern_view(k));
}

/// A category is fixed exactly when one of its word tokens (its alphanumeric
/// runs, lowercased) is one of the fixed-category patterns: a whole-word,
/// case-insensitive match.
pub proof fn law_fixed_category_is_a_whole_word_pattern(name: Seq<char>)
    ensures
        spec_is_fixed_category(name) <==> exists|i: int, k: int|
            0 <= i < spec_category_tokens(name).len() && 0 <= k < 8
                && #[trigger] spec_category_tokens(name)[i] == #[trigger] fixed_category_pattern_view(k),
{
    let t = spec_category_tokens(name);
    assert forall|k: int| 0 <= k < 8 implies #[trigger] spec_category_tokens(fixed_category_pattern_view(k))
        == seq![fixed_category_pattern_view(k)] by {
        lemma_pattern_tokens(k);
    }
    if spec_is_fixed_category(name) {
        let k = choose|k: int|
            0 <= k < 8 && {
                let pt = #[trigger] spec_category_tokens(fixed_category_pattern_view(k));
                pt.len() > 0 && has_token_window(spec_category_tokens(name), pt)
            };
        let pt = spec_category_tokens(fixed_category_pattern_view(k));
        let i = choose|i: int| 0 <= i && i + pt.len() <= t.len() && #[trigger] t.subrange(i, i + pt.len()) == pt;
        assert(t.subrange(i, i + 1)[0] == t[i]);
        assert(t[i] == fixed_category_pattern_view(k));
    }
    if exists|i: int, k: int|
        0 <= i < t.len() && 0 <= k < 8 && #[trigger] t[i] == #[trigger] fixed_category_pattern_view(k) {
        let (i, k) = choose|i: int, k: int|
            0 <= i < t.len() && 0 <= k < 8 && #[trigger] t[i] == #[trigger] fixed_category_pattern_view(k);
        let pt = spec_category_tokens(fixed_category_pattern_view(k));
        assert(t.subrange(i, i + 1) =~= pt);
        assert(has_token_window(t, pt));
    }
}

// ---------------------------------------------------------------------------
// Month labels
// ---------------------------------------------------------------------------

/// The first seven bytes of a text, decoded.
pub open spec fn byte_prefix7(s: &str) -> Seq<char> {
    decode_utf8(s.spec_bytes().take(7))
}

/// Whether the first seven bytes of a text form whole characters.
pub open spec fn has_prefix7(s: &str) -> bool {
    s.spec_bytes().len() >= 7 && valid_utf8(s.spec_bytes().take(7))
}

/// The `YYYY-MM` bucket of a date: its first seven bytes, when they are whole
/// characters and the fifth byte is a dash.
pub open spec fn spec_month_bucket(date: &str) -> Option<Seq<char>> {
    if has_prefix7(date) && date.spec_bytes()[4] == 45u8 {
        Some(byte_prefix7(date))
    } else {
        None
    }
}

/// The month labels between two dates: both must start with seven bytes of
/// whole characters that split at a dash into an `i64` year and a `u32` month.
pub open spec fn spec_enumerate_months(range_start: &str, range_end: &str) -> Seq<Seq<char>> {
    if !has_prefix7(range_start) || !has_prefix7(range_end) {
        seq![]
    } else {
        match (spec_parse_ym(byte_prefix7(range_start)), spec_parse_ym(byte_prefix7(range_end))) {
            (Some((y, m)), Some((ey, em))) => ym_walk(y as int, m as int, ey as int, em as int),
            _ => seq![],
        }
    }
}

/// The first seven bytes of `s` as a string slice, when they are whole
/// characters.
pub(crate) fn utf8_prefix7(s: &str) -> (r: Option<&str>)
    ensures
        r is Some <==> has_prefix7(s),
        r matches Some(p) ==> p@ == byte_prefix7(s) && p.spec_bytes() == s.spec_bytes().take(7),
{
    let b = s.as_bytes();
    if b.len() < 7 {
        return None;
    }
    let pb = slice_subrange(b, 0, 7);
    assert(pb@ =~= s.spec_bytes().take(7));
    let p = utf8_str(pb);
    proof {
        if let Some(p) = p {
            encode_utf8_decode_utf8(p@);
        }
    }
    p
}

/// Determine the `YYYY-MM` bucket for a transaction date string.
///
/// Returns `None` when the date is shorter than seven bytes, when those bytes
/// are not whole characters (so not a valid ISO-8601 date), or when the fifth
/// byte is not a dash.
pub fn month_bucket(date: &str) -> (r: Option<String>)
    ensures
        r matches Some(p) ==> spec_month_bucket(date) == Some(p@),
        r is None ==> spec_month_bucket(date) is None,
{
    let prefix = match utf8_prefix7(date) {
        Some(p) => p,
        None => return None,
    };
    let pb = prefix.as_bytes();
    if pb[4] != 45u8 {
        return None;
    }
    Some(prefix.to_owned())
}

/// The fields of a parsed seven-character prefix are small.
proof fn lemma_parse_ym_small(p: Seq<char>)
    requires
        p.len() <= 7,
        spec_parse_ym(p) is Some,
    ensures
        (spec_parse_ym(p)->0).1 < 100_000,
        -1_000_000 < (spec_parse_ym(p)->0).0 < 1_000_000,
{
    let i = first_index_from(p, '-', 0)->0;
    lemma_first_index_from_found(p, '-', 0);
    let (a, b) = split_once_dash(p)->0;
    assert(a.len() == i && b.len() == p.len() - i - 1);
    lemma_parse_i64_short(a);
    lemma_parse_u32_short(b);
}

/// Parse the seven-byte prefix of a sliceable text into `(year, month)`.
pub(crate) fn parse_prefix_ym(p: &str) -> (r: Option<(i64, u32)>)
    requires
        p@.len() <= 7,
    ensures
        r == spec_parse_ym(p@),
        r matches Some((y, m)) ==> m < 100_000 && -1_000_000 < y < 1_000_000,
{
    let r = parse_ym(p);
    proof {
        if r is Some {
            lemma_parse_ym_small(p@);
        }
    }
    r
}

/// Enumerate all `YYYY-MM` labels between `range_start` and `range_end`
/// (inclusive), oldest-first.
///
/// Both inputs are ISO-8601 dates (`YYYY-MM-DD`); months are generated by
/// walking forward one month at a time from the start month to the end month.
/// An input whose first seven bytes are not whole characters, or do not split
/// into a year and a month, gives no months.
pub fn enumerate_months_in_range(range_start: &str, range_end: &str) -> (r: Vec<String>)
    ensures
        r@.map_values(|l: String| l@) == spec_enumerate_months(range_start, range_end),
{
    let start_prefix = match utf8_prefix7(range_start) {
        Some(p) => p,
        None => return Vec::new(),
    };
    let end_prefix = match utf8_prefix7(range_end) {
        Some(p) => p,
        None => return Vec::new(),
    };
    proof {
        lemma_decode_utf8_len(range_start.spec_bytes().take(7));
        lemma_decode_utf8_len(range_end.spec_bytes().take(7));
    }
    let (y, m) = match parse_prefix_ym(start_prefix) {
        Some(v) => v,
        None => return Vec::new(),
    };
    let (end_y, end_m) = match parse_prefix_ym(end_prefix) {
        Some(v) => v,
        None => return Vec::new(),
    };
    month_labels_between(y, m, end_y, end_m)
}

// ---------------------------------------------------------------------------
// Complete-month ranges
// ---------------------------------------------------------------------------

/// The `(start, end)` months of the `max(months, 1)` complete months that end
/// just before the month containing epoch day `today`.
pub open spec fn complete_months_window(today: int, months: int) -> ((int, int), (int, int)) {
    let n = if months < 1 { 1 } else { months };
    let (ty, tm, _) = ymd_of_epoch_day(today);
    let prior = months_back(ty, tm, 1);
    (months_back(prior.0, prior.1, n - 1), prior)
}

/// Between two dates whose first seven bytes parse as `YYYY-MM` with months in
/// `1..=12`, the enumerated labels are every month from the start's through
/// the end's, stepping one month at a time: as many as the months between
/// them, inclusive, and none when the start comes after the end.
pub proof fn law_enumerated_months_step_by_one(
    range_start: &str,
    range_end: &str,
    sy: i64,
    sm: u32,
    ey: i64,
    em: u32,
)
    requires
        has_prefix7(range_start),
        has_prefix7(range_end),
        spec_parse_ym(byte_prefix7(range_start)) == Some((sy, sm)),
        spec_parse_ym(byte_prefix7(range_end)) == Some((ey, em)),
        1 <= sm <= 12,
        1 <= em <= 12,
    ensures
        ({
            let labels = spec_enumerate_months(range_start, range_end);
            let first = month_index(sy as int, sm as int);
            let last = month_index(ey as int, em as int);
            &&& labels.len() == if first <= last {
                last - first + 1
            } else {
                0
            }
            &&& forall|k: int|
                0 <= k < labels.len() ==> #[trigger] labels[k] == fmt_ym(
                    year_of_index(first + k),
                    month_of_index(first + k),
                )
        }),
{
    let first = month_index(sy as int, sm as int);
    let last = month_index(ey as int, em as int);
    if first <= last + 1 {
        crate::calendar::lemma_ym_walk_months(sy as int, sm as int, ey as int, em as int);
    } else {
        assert(sy > ey || (sy == ey && sm > em)) by (nonlinear_arith)
            requires
                first == sy * 12 + sm - 1,
                last == ey * 12 + em - 1,
                first > last + 1,
                1 <= sm <= 12,
                1 <= em <= 12,
        ;
        assert(ym_walk(sy as int, sm as int, ey as int, em as int).len() == 0);
    }
}

/// The complete-month window of `months` months enumerates to exactly
/// `max(months, 1)` labels, oldest first: the window's first month, each month
/// after it, through the month before today's. Stated for windows whose years
/// are written with four digits (years `0..=9999`).
pub proof fn law_window_enumerates_its_months(today: int, months: int, start: &str, end: &str)
    requires
        ({
            let (s, e) = complete_months_window(today, months);
            &&& start@ == fmt_ymd(s.0, s.1, 1)
            &&& end@ == fmt_ymd(e.0, e.1, month_length(e.0, e.1))
            &&& 0 <= s.0 <= 9999
            &&& 0 <= e.0 <= 9999
        }),
    ensures
        ({
            let (s, e) = complete_months_window(today, months);
            let n = if months < 1 {
                1
            } else {
                months
            };
            let labels = spec_enumerate_months(start, end);
            &&& labels.len() == n
            &&& month_index(e.0, e.1) == month_index(s.0, s.1) + n - 1
            &&& forall|k: int|
                0 <= k < n ==> #[trigger] labels[k] == fmt_ym(
                    year_of_index(month_index(s.0, s.1) + k),
                    month_of_index(month_index(s.0, s.1) + k),
                )
        }),
{
    let (s, e) = complete_months_window(today, months);
    let n = if months < 1 {
        1
    } else {
        months
    };
    crate::calendar::lemma_ymd_of_epoch_day_is_valid(today);
    let (ty, tm, _) = ymd_of_epoch_day(today);
    crate::calendar::lemma_months_back_facts(ty, tm, 1);
    crate::calendar::lemma_months_back_facts(e.0, e.1, n - 1);
    crate::calendar::lemma_fmt_ym_parses(s.0, s.1);
    crate::calendar::lemma_fmt_ym_parses(e.0, e.1);
    crate::calendar::lemma_fmt_ymd_begins_with_ym(s.0, s.1, 1);
    crate::calendar::lemma_fmt_ymd_begins_with_ym(e.0, e.1, month_length(e.0, e.1));
    crate::text::lemma_ascii_prefix7(start, fmt_ym(s.0, s.1), seq!['-'] + fmt_zero_padded(1, 2));
    crate::text::lemma_ascii_prefix7(
        end,
        fmt_ym(e.0, e.1),
        seq!['-'] + fmt_zero_padded(month_length(e.0, e.1), 2),
    );
    assert(byte_prefix7(start) == fmt_ym(s.0, s.1));
    assert(byte_prefix7(end) == fmt_ym(e.0, e.1));
    crate::calendar::lemma_ym_walk_months(s.0, s.1, e.0, e.1);
}

/// Compute the ISO date range covered by `months` complete months ending
/// just before the month containing `today_day`.
///
/// "Complete months" excludes the current partial month. `months` is clamped
/// to a minimum of 1. Returns `(start_date, end_date)`: the first day of the
/// start month and the last day of the prior month.
pub fn range_for_months_count(today_day: i64, months: u32) -> (r: (String, String))
    requires
        epoch_day_in_range(today_day as int),
    ensures
        ({
            let (start, end) = complete_months_window(today_day as int, months as int);
            &&& r.0@ == fmt_ymd(start.0, start.1, 1)
            &&& r.1@ == fmt_ymd(end.0, end.1, month_length(end.0, end.1))
        }),
{
    let months = if months < 1 { 1 } else { months };
    let (today_year, today_month, _) = epoch_days_to_ymd(today_day);
    let (prior_year, prior_month) = subtract_months(today_year, today_month, 1);
    proof {
        crate::calendar::lemma_months_back_facts(today_year as int, today_month as int, 1);
        crate::calendar::lemma_months_back_facts(prior_year as int, prior_month as int, months - 1);
    }
    let (start_year, start_month) = subtract_months(prior_year, prior_month, months - 1);
    let start = format_ymd(start_year, start_month, 1);
    let end_last = days_in_month(prior_year, prior_month);
    let end = format_ymd(prior_year, prior_month, end_last);
    (start, end)
}

} // verus!
