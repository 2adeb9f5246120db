//! Session-title rewriting: recognizing a trailing `" Session N"` suffix,
//! deriving the next session's title, and budgeting the result against the
//! platform's UTF-16 title-length limit.

use vstd::prelude::*;

use crate::text::{
    all_digits, dec_rep, digits_value, is_digit, lemma_digits_value_nonneg, parse_u64,
    u64_to_string,
};

verus! {

/// Maximum length of an event title, counted in UTF-16 code units.
pub const MAX_EVENT_NAME_UTF16_LEN: usize = 80;

/// Whitespace as understood by the title and shortcode grammar.
pub open spec fn is_ws(c: char) -> bool {
    c == ' ' || c == '\t' || c == '\n' || c == '\r' || c as int == 0x0b || c as int == 0x0c
}

/// Case-insensitive match of a character against a lower-case ASCII letter.
pub open spec fn eq_ci(c: char, lower: char) -> bool {
    c == lower || c as int == lower as int - 32
}

/// Index of the first character of the maximal whitespace run that ends just
/// before position `i` (scanning leftwards).
pub open spec fn skip_ws_back(s: Seq<char>, i: int) -> int
    decreases i,
{
    if 0 < i <= s.len() && is_ws(s[i - 1]) {
        skip_ws_back(s, i - 1)
    } else {
        i
    }
}

/// Index of the first character of the maximal digit run that ends just
/// before position `i` (scanning leftwards).
pub open spec fn skip_digits_back(s: Seq<char>, i: int) -> int
    decreases i,
{
    if 0 < i <= s.len() && is_digit(s[i - 1]) {
        skip_digits_back(s, i - 1)
    } else {
        i
    }
}

/// The word `session`, case-insensitively, starts at position `p`.
pub open spec fn session_at(s: Seq<char>, p: int) -> bool {
    &&& 0 <= p
    &&& p + 7 <= s.len()
    &&& eq_ci(s[p], 's')
    &&& eq_ci(s[p + 1], 'e')
    &&& eq_ci(s[p + 2], 's')
    &&& eq_ci(s[p + 3], 's')
    &&& eq_ci(s[p + 4], 'i')
    &&& eq_ci(s[p + 5], 'o')
    &&& eq_ci(s[p + 6], 'n')
}

/// Splits a title that ends in whitespace, `session` (case-insensitive),
/// whitespace, digits, and optional trailing whitespace.
///
/// Returns `(base_end, digits_start, digits_end)`: the base is
/// `s[..base_end]` (the whitespace before `session` is stripped with the
/// suffix) and the session number is denoted by `s[digits_start..digits_end]`.
pub open spec fn session_split(s: Seq<char>) -> Option<(int, int, int)> {
    let de = skip_ws_back(s, s.len() as int);
    let ds = skip_digits_back(s, de);
    if ds == de {
        None
    } else {
        let k = skip_ws_back(s, ds);
        if k == ds {
            None
        } else if k >= 7 && session_at(s, k - 7) {
            let b = skip_ws_back(s, k - 7);
            if b == k - 7 {
                None
            } else {
                Some((b, ds, de))
            }
        } else {
            None
        }
    }
}

/// The base of a title: the text before the session suffix, or the whole
/// title when there is no suffix.
pub open spec fn split_base(s: Seq<char>) -> Seq<char> {
    match session_split(s) {
        None => s,
        Some((b, _, _)) => s.subrange(0, b),
    }
}

/// What the title's session suffix denotes.
#[derive(PartialEq, Eq, Structural, Clone, Copy, Debug)]
pub enum SessionSuffix {
    /// The title carries no session suffix.
    Absent,
    /// The suffix's number.
    Number(u64),
    /// A suffix is present but its number does not fit a 32-bit signed value.
    TooLarge,
}

/// The suffix classification of a title.
pub open spec fn split_suffix(s: Seq<char>) -> SessionSuffix {
    match session_split(s) {
        None => SessionSuffix::Absent,
        Some((b, ds, de)) => {
            let v = digits_value(s.subrange(ds, de));
            if v <= i32::MAX {
                SessionSuffix::Number(v as u64)
            } else {
                SessionSuffix::TooLarge
            }
        },
    }
}

/// The session number a title denotes: its suffix number when present and
/// parseable, and 1 otherwise.
pub open spec fn split_number(s: Seq<char>) -> int {
    match split_suffix(s) {
        SessionSuffix::Number(v) => v as int,
        _ => 1,
    }
}

/// `" Session "` as a character sequence.
pub open spec fn session_suffix_words() -> Seq<char> {
    seq![' ', 'S', 'e', 's', 's', 'i', 'o', 'n', ' ']
}

/// The `" Session N"` suffix for session number `n`.
pub open spec fn session_suffix_rep(n: int) -> Seq<char> {
    session_suffix_words() + dec_rep(n)
}

/// The next session's title, before any length budgeting: the base followed
/// by a suffix naming the next session number.
pub open spec fn next_title_rep(s: Seq<char>) -> Seq<char> {
    split_base(s) + session_suffix_rep(split_number(s) + 1)
}

/// Is the character at position `j` whitespace?
fn ws_at(s: &str, j: usize) -> (r: bool)
    requires
        j < s@.len(),
    ensures
        r == is_ws(s@[j as int]),
{
    let c = s.get_char(j);
    c == ' ' || c == '\t' || c == '\n' || c == '\r' || c as u32 == 0x0b || c as u32 == 0x0c
}

/// Is the character at position `j` a decimal digit?
fn digit_at(s: &str, j: usize) -> (r: bool)
    requires
        j < s@.len(),
    ensures
        r == is_digit(s@[j as int]),
{
    let u = s.get_char(j) as u32;
    48 <= u && u <= 57
}

/// Scans whitespace leftwards from `start`, returning where the run begins.
fn scan_ws_back(s: &str, start: usize) -> (r: usize)
    requires
        start <= s@.len(),
    ensures
        r == skip_ws_back(s@, start as int),
        r <= start,
{
    let mut i: usize = start;
    while i > 0 && ws_at(s, i - 1)
        invariant
            start <= s@.len(),
            0 <= i <= start,
            skip_ws_back(s@, start as int) == skip_ws_back(s@, i as int),
        decreases i,
    {
        i = i - 1;
    }
    i
}

/// Scans digits leftwards from `start`, returning where the run begins.
fn scan_digits_back(s: &str, start: usize) -> (r: usize)
    requires
        start <= s@.len(),
    ensures
        r == skip_digits_back(s@, start as int),
        r <= start,
{
    let mut i: usize = start;
    while i > 0 && digit_at(s, i - 1)
        invariant
            start <= s@.len(),
            0 <= i <= start,
            skip_digits_back(s@, start as int) == skip_digits_back(s@, i as int),
        decreases i,
    {
        i = i - 1;
    }
    i
}

/// Does the word `session` (case-insensitive) start at position `p`?
fn session_at_exec(s: &str, p: usize) -> (r: bool)
    requires
        p + 7 <= s@.len(),
        s@.len() <= usize::MAX,
    ensures
        r == session_at(s@, p as int),
{
    let c0 = s.get_char(p);
    let c1 = s.get_char(p + 1);
    let c2 = s.get_char(p + 2);
    let c3 = s.get_char(p + 3);
    let c4 = s.get_char(p + 4);
    let c5 = s.get_char(p + 5);
    let c6 = s.get_char(p + 6);
    (c0 == 's' || c0 == 'S') && (c1 == 'e' || c1 == 'E') && (c2 == 's' || c2 == 'S') && (c3 == 's'
        || c3 == 'S') && (c4 == 'i' || c4 == 'I') && (c5 == 'o' || c5 == 'O') && (c6 == 'n' || c6
        == 'N')
}

/// Splits a title into its base and the classification of its trailing
/// `" Session N"` suffix.
///
/// The base is the title itself when no suffix is recognized; otherwise the
/// text before the whitespace that introduces the suffix.
pub fn split_session_title(title: &str) -> (r: (String, SessionSuffix))
    ensures
        r.0@ == split_base(title@),
        r.1 == split_suffix(title@),
        r.1 matches SessionSuffix::Number(v) ==> v <= i32::MAX as u64,
{
    let len: usize = title.unicode_len();
    let de = scan_ws_back(title, len);
    let ds = scan_digits_back(title, de);
    if ds == de {
        return (title.to_owned(), SessionSuffix::Absent);
    }
    let k = scan_ws_back(title, ds);
    if k == ds || k < 7 || !session_at_exec(title, k - 7) {
        return (title.to_owned(), SessionSuffix::Absent);
    }
    let b = scan_ws_back(title, k - 7);
    if b == k - 7 {
        return (title.to_owned(), SessionSuffix::Absent);
    }
    let base = title.substring_char(0, b).to_owned();
    let digits = title.substring_char(ds, de);
    let suffix = match parse_u64(digits) {
        Some(v) => {
            if v <= i32::MAX as u64 {
                SessionSuffix::Number(v)
            } else {
                proof {
                    lemma_digits_value_nonneg(title@.subrange(ds as int, de as int));
                }
                SessionSuffix::TooLarge
            }
        },
        None => {
            proof {
                lemma_all_digits_in_run(title@, ds as int, de as int);
                lemma_digits_value_nonneg(title@.subrange(ds as int, de as int));
            }
            SessionSuffix::TooLarge
        },
    };
    (base, suffix)
}

/// A digit scan never leaves the string, and every character it skipped over
/// is a digit.
proof fn lemma_digit_run(s: Seq<char>, de: int)
    requires
        0 <= de <= s.len(),
    ensures
        0 <= skip_digits_back(s, de) <= de,
        forall|j: int| skip_digits_back(s, de) <= j < de ==> is_digit(#[trigger] s[j]),
    decreases de,
{
    if 0 < de <= s.len() && is_digit(s[de - 1]) {
        lemma_digit_run(s, de - 1);
    }
}

/// The digit run before `de` reads as a digit string.
proof fn lemma_all_digits_in_run(s: Seq<char>, ds: int, de: int)
    requires
        0 <= de <= s.len(),
        ds == skip_digits_back(s, de),
    ensures
        all_digits(s.subrange(ds, de)),
{
    lemma_digit_run(s, de);
    assert forall|i: int| 0 <= i < de - ds implies is_digit(#[trigger] s.subrange(ds, de)[i]) by {
        assert(s.subrange(ds, de)[i] == s[ds + i]);
    }
}

/// The next session's title, without length budgeting: the recognized suffix
/// number plus one, or `" Session 2"` when no suffix (or an unparseable one)
/// is present.
pub fn next_session_title(title: &str) -> (r: String)
    ensures
        r@ == next_title_rep(title@),
{
    let (base, suffix) = split_session_title(title);
    let n: u64 = match suffix {
        SessionSuffix::Number(v) => v,
        _ => 1,
    };
    let mut r = base;
    r.append(session_suffix_str(n + 1).as_str());
    r
}

/// How many UTF-16 code units a character occupies.
pub open spec fn char_utf16(c: char) -> int {
    if (c as int) < 0x10000 {
        1
    } else {
        2
    }
}

/// The length of a character sequence in UTF-16 code units.
pub open spec fn utf16_len(s: Seq<char>) -> int
    decreases s.len(),
{
    if s.len() == 0 {
        0
    } else {
        utf16_len(s.drop_last()) + char_utf16(s.last())
    }
}

/// UTF-16 length distributes over concatenation.
pub proof fn lemma_utf16_len_concat(a: Seq<char>, b: Seq<char>)
    ensures
        utf16_len(a + b) == utf16_len(a) + utf16_len(b),
    decreases b.len(),
{
    if b.len() == 0 {
        assert(a + b =~= a);
    } else {
        lemma_utf16_len_concat(a, b.drop_last());
        assert((a + b).drop_last() =~= a + b.drop_last());
        assert((a + b).last() == b.last());
    }
}

/// Computes the UTF-16 length of a string.
///
/// A `u128` holds the result for any string a machine can hold.
pub fn utf16_len_str(s: &str) -> (n: u128)
    ensures
        n == utf16_len(s@),
{
    let len: usize = s.unicode_len();
    let mut acc: u128 = 0;
    let mut i: usize = 0;
    while i < len
        invariant
            0 <= i <= len,
            len == s@.len(),
            acc == utf16_len(s@.subrange(0, i as int)),
            acc <= 2 * i,
        decreases len - i,
    {
        let c = s.get_char(i);
        proof {
            let p = s@.subrange(0, i as int + 1);
            assert(p.drop_last() =~= s@.subrange(0, i as int));
            assert(p.last() == s@[i as int]);
        }
        if (c as u32) < 0x10000 {
            acc = acc + 1;
        } else {
            acc = acc + 2;
        }
        i = i + 1;
    }
    proof {
        assert(s@.subrange(0, len as int) =~= s@);
    }
    acc
}

/// The end of the longest prefix of `s`, starting the scan at `k`, whose
/// UTF-16 length stays within `max`.
pub open spec fn utf16_cut(s: Seq<char>, k: int, max: int) -> int
    decreases s.len() - k,
{
    if 0 <= k < s.len() && utf16_len(s.subrange(0, k + 1)) <= max {
        utf16_cut(s, k + 1, max)
    } else {
        k
    }
}

/// Truncates a string to its longest prefix of at most `max` UTF-16 code
/// units.
pub fn truncate_str_utf16(s: &str, max: u128) -> (r: String)
    ensures
        r@ == s@.subrange(0, utf16_cut(s@, 0, max as int)),
        utf16_len(r@) <= max,
{
    let len: usize = s.unicode_len();
    let mut acc: u128 = 0;
    let mut i: usize = 0;
    #[verifier::loop_isolation(true)]
    loop
        invariant
            0 <= i <= len,
            len == s@.len(),
            acc == utf16_len(s@.subrange(0, i as int)),
            acc <= max,
            acc <= 2 * i,
            utf16_cut(s@, 0, max as int) == utf16_cut(s@, i as int, max as int),
        ensures
            0 <= i <= len,
            i as int == utf16_cut(s@, 0, max as int),
            utf16_len(s@.subrange(0, i as int)) <= max,
        decreases len - i,
    {
        if i >= len {
            break;
        }
        let c = s.get_char(i);
        let units: u128 = if (c as u32) < 0x10000 {
            1
        } else {
            2
        };
        proof {
            let p = s@.subrange(0, i as int + 1);
            assert(p.drop_last() =~= s@.subrange(0, i as int));
            assert(p.last() == s@[i as int]);
        }
        if acc + units > max {
            break;
        }
        acc = acc + units;
        i = i + 1;
    }
    s.substring_char(0, i).to_owned()
}

/// A title fitted to the UTF-16 length budget: the base plus the session
/// suffix when they fit, and otherwise the truncated base, an ellipsis, and
/// the suffix, never exceeding the limit.
pub open spec fn budgeted_title_rep(base: Seq<char>, n: int) -> Seq<char> {
    let suffix = session_suffix_rep(n);
    if utf16_len(base) + utf16_len(suffix) <= MAX_EVENT_NAME_UTF16_LEN {
        base + suffix
    } else {
        let cut = utf16_cut(base, 0, MAX_EVENT_NAME_UTF16_LEN - utf16_len(suffix) - 1);
        base.subrange(0, cut) + seq!['\u{2026}'] + suffix
    }
}

/// Powers of ten.
spec fn pow10(k: nat) -> int
    decreases k,
{
    if k == 0 {
        1
    } else {
        10 * pow10((k - 1) as nat)
    }
}

/// A number below the `k`-th power of ten has at most `k` decimal digits.
proof fn lemma_dec_rep_len(n: int, k: nat)
    requires
        0 <= n < pow10(k),
        1 <= k,
    ensures
        dec_rep(n).len() <= k,
    decreases k,
{
    if n >= 10 {
        assert(pow10(1) == 10) by {
            reveal_with_fuel(pow10, 2);
        }
        assert(k >= 2) by {
            if k < 2 {
                assert(pow10(k) == 10);
            }
        }
        assert(n / 10 < pow10((k - 1) as nat)) by {
            assert(pow10(k) == 10 * pow10((k - 1) as nat));
        }
        lemma_dec_rep_len(n / 10, (k - 1) as nat);
    }
}

/// Decimal representations consist of digit characters.
proof fn lemma_dec_rep_digits(n: int)
    requires
        n >= 0,
    ensures
        all_digits(dec_rep(n)),
    decreases n,
{
    if n >= 10 {
        lemma_dec_rep_digits(n / 10);
        let s = dec_rep(n);
        assert forall|i: int| 0 <= i < s.len() implies is_digit(#[trigger] s[i]) by {
            if i < s.len() - 1 {
                assert(s[i] == dec_rep(n / 10)[i]);
            }
        }
    }
}

/// A sequence of basic-plane characters occupies one UTF-16 unit each.
proof fn lemma_utf16_len_bmp(s: Seq<char>)
    requires
        forall|i: int| 0 <= i < s.len() ==> (#[trigger] s[i] as int) < 0x10000,
    ensures
        utf16_len(s) == s.len(),
    decreases s.len(),
{
    if s.len() > 0 {
        lemma_utf16_len_bmp(s.drop_last());
    }
}

/// The UTF-16 length of a `" Session N"` suffix, for session numbers that
/// fit 32 bits: nine characters of words plus at most ten digits.
proof fn lemma_suffix_utf16_len(n: int)
    requires
        0 <= n <= 0x8000_0000,
    ensures
        session_suffix_rep(n).len() == utf16_len(session_suffix_rep(n)),
        9 <= utf16_len(session_suffix_rep(n)) <= 19,
{
    lemma_dec_rep_digits(n);
    lemma_utf16_len_bmp(dec_rep(n));
    lemma_utf16_len_concat(session_suffix_words(), dec_rep(n));
    assert(utf16_len(session_suffix_words()) == 9) by {
        lemma_utf16_len_bmp(session_suffix_words());
    }
    assert(dec_rep(n).len() <= 10) by {
        proof_pow10_ten();
        lemma_dec_rep_len(n, 10);
    }
    assert(dec_rep(n).len() >= 0);
}

/// `pow10(10)` written out.
proof fn proof_pow10_ten()
    ensures
        pow10(10) == 10_000_000_000,
{
    reveal_with_fuel(pow10, 11);
}

/// Fits a base title and a session suffix to the UTF-16 length budget.
///
/// When the pair exceeds the limit, the base is truncated and an ellipsis is
/// inserted between the shortened base and the suffix; the result never
/// exceeds the limit.
pub fn budgeted_session_title(base: &str, n: u64) -> (r: String)
    requires
        1 <= n <= 0x8000_0000,
    ensures
        r@ == budgeted_title_rep(base@, n as int),
        utf16_len(r@) <= MAX_EVENT_NAME_UTF16_LEN,
{
    proof {
        reveal_strlit("\u{2026}");
        lemma_suffix_utf16_len(n as int);
    }
    let suffix = session_suffix_str(n);
    let suffix_units = utf16_len_str(suffix.as_str());
    let base_units = utf16_len_str(base);
    if base_units <= MAX_EVENT_NAME_UTF16_LEN as u128 - suffix_units {
        proof {
            lemma_utf16_len_concat(base@, suffix@);
        }
        let mut r = base.to_owned();
        r.append(suffix.as_str());
        r
    } else {
        let max_base_units: u128 = MAX_EVENT_NAME_UTF16_LEN as u128 - suffix_units - 1;
        let mut r = truncate_str_utf16(base, max_base_units);
        let ghost trunc = r@;
        r.append("\u{2026}");
        r.append(suffix.as_str());
        proof {
            assert("\u{2026}"@ =~= seq!['\u{2026}']);
            lemma_utf16_len_concat(trunc, seq!['\u{2026}']);
            lemma_utf16_len_concat(trunc + seq!['\u{2026}'], suffix@);
            assert(utf16_len(seq!['\u{2026}']) == 1) by {
                lemma_utf16_len_bmp(seq!['\u{2026}']);
            }
            assert(r@ =~= budgeted_title_rep(base@, n as int));
        }
        r
    }
}

/// Builds the `" Session N"` suffix string.
fn session_suffix_str(n: u64) -> (r: String)
    ensures
        r@ == session_suffix_rep(n as int),
{
    proof {
        reveal_strlit(" Session ");
        assert(" Session "@ =~= session_suffix_words());
    }
    let mut r = " Session ".to_owned();
    r.append(u64_to_string(n).as_str());
    r
}

} // verus!
