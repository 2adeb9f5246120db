//! Description shortcodes: bracketed or parenthesized markers such as
//! `[new adventure]`, `[channel 123]`, `[closed]` and `[campaign X]`,
//! recognized case-insensitively, and the rewrite rules (strip or insert)
//! applied when deriving a follow-up session's description.

use vstd::prelude::*;

use crate::title::{eq_ci, is_ws};
use crate::text::is_digit;

verus! {

/// The shortcodes the rewriter knows.
#[derive(PartialEq, Eq, Structural, Clone, Copy, Debug)]
pub enum CodeKind {
    /// `[new adventure]`
    NewAdventure,
    /// `[new campaign]`
    NewCampaign,
    /// `[channel N]` with a decimal channel number
    Channel,
    /// `[closed]`
    Closed,
    /// `[campaign X]` with an identifier
    CampaignMarker,
}

/// Opening delimiter of a shortcode.
pub open spec fn is_opener(c: char) -> bool {
    c == '[' || c == '('
}

/// Closing delimiter of a shortcode.
pub open spec fn is_closer(c: char) -> bool {
    c == ']' || c == ')'
}

/// A character an identifier inside a `[campaign X]` marker may hold.
pub open spec fn is_id_char(c: char) -> bool {
    !is_ws(c) && !is_closer(c)
}

/// End of the maximal whitespace run starting at `i`.
pub open spec fn skip_ws_fwd(s: Seq<char>, i: int) -> int
    decreases s.len() - i,
{
    if 0 <= i < s.len() && is_ws(s[i]) {
        skip_ws_fwd(s, i + 1)
    } else {
        i
    }
}

/// End of the maximal digit run starting at `i`.
pub open spec fn skip_digits_fwd(s: Seq<char>, i: int) -> int
    decreases s.len() - i,
{
    if 0 <= i < s.len() && is_digit(s[i]) {
        skip_digits_fwd(s, i + 1)
    } else {
        i
    }
}

/// End of the maximal identifier-character run starting at `i`.
pub open spec fn skip_id_fwd(s: Seq<char>, i: int) -> int
    decreases s.len() - i,
{
    if 0 <= i < s.len() && is_id_char(s[i]) {
        skip_id_fwd(s, i + 1)
    } else {
        i
    }
}

/// The word `w` (lower-case) occurs at position `i`, case-insensitively.
pub open spec fn word_at(s: Seq<char>, i: int, w: Seq<char>) -> bool {
    &&& 0 <= i
    &&& i + w.len() <= s.len()
    &&& forall|j: int| 0 <= j < w.len() ==> eq_ci(s[i + j], #[trigger] w[j])
}

pub open spec fn word_new() -> Seq<char> {
    seq!['n', 'e', 'w']
}

pub open spec fn word_adventure() -> Seq<char> {
    seq!['a', 'd', 'v', 'e', 'n', 't', 'u', 'r', 'e']
}

pub open spec fn word_campaign() -> Seq<char> {
    seq!['c', 'a', 'm', 'p', 'a', 'i', 'g', 'n']
}

pub open spec fn word_channel() -> Seq<char> {
    seq!['c', 'h', 'a', 'n', 'n', 'e', 'l']
}

pub open spec fn word_closed() -> Seq<char> {
    seq!['c', 'l', 'o', 's', 'e', 'd']
}

/// Index just after a closing delimiter reached from position `p` across
/// optional whitespace, or -1 when the shortcode does not close there.
pub open spec fn close_tail(s: Seq<char>, p: int) -> int {
    let q = skip_ws_fwd(s, p);
    if q < s.len() && is_closer(s[q]) {
        q + 1
    } else {
        -1
    }
}

/// End of a one-word shortcode body starting at `a`, or -1.
pub open spec fn one_word_tail(s: Seq<char>, a: int, w: Seq<char>) -> int {
    if word_at(s, a, w) {
        close_tail(s, a + w.len())
    } else {
        -1
    }
}

/// End of a two-word shortcode body starting at `a`, or -1.
pub open spec fn two_word_tail(s: Seq<char>, a: int, w1: Seq<char>, w2: Seq<char>) -> int {
    if word_at(s, a, w1) {
        let b = skip_ws_fwd(s, a + w1.len());
        if word_at(s, b, w2) {
            close_tail(s, b + w2.len())
        } else {
            -1
        }
    } else {
        -1
    }
}

/// End of a keyword-plus-digits shortcode body starting at `a`, or -1.
pub open spec fn keyword_digits_tail(s: Seq<char>, a: int, w: Seq<char>) -> int {
    if word_at(s, a, w) {
        let b = skip_ws_fwd(s, a + w.len());
        let c = skip_digits_fwd(s, b);
        if c > b {
            close_tail(s, c)
        } else {
            -1
        }
    } else {
        -1
    }
}

/// End of a keyword-plus-identifier shortcode body starting at `a`, or -1.
pub open spec fn keyword_id_tail(s: Seq<char>, a: int, w: Seq<char>) -> int {
    if word_at(s, a, w) {
        let b = skip_ws_fwd(s, a + w.len());
        let c = skip_id_fwd(s, b);
        if c > b {
            close_tail(s, c)
        } else {
            -1
        }
    } else {
        -1
    }
}

/// Length of the shortcode of kind `k` starting at position `i`, or -1 when
/// none starts there.
pub open spec fn code_len_at(s: Seq<char>, i: int, k: CodeKind) -> int {
    if 0 <= i < s.len() && is_opener(s[i]) {
        let a = skip_ws_fwd(s, i + 1);
        let e = match k {
            CodeKind::NewAdventure => two_word_tail(s, a, word_new(), word_adventure()),
            CodeKind::NewCampaign => two_word_tail(s, a, word_new(), word_campaign()),
            CodeKind::Channel => keyword_digits_tail(s, a, word_channel()),
            CodeKind::Closed => one_word_tail(s, a, word_closed()),
            CodeKind::CampaignMarker => keyword_id_tail(s, a, word_campaign()),
        };
        if e >= 0 {
            e - i
        } else {
            -1
        }
    } else {
        -1
    }
}

/// The text from position `i` on, with every shortcode of kind `k` removed:
/// a left-to-right scan that deletes each match and continues after it.
pub open spec fn strip_from(s: Seq<char>, i: int, k: CodeKind) -> Seq<char>
    decreases s.len() - i,
{
    if 0 <= i < s.len() {
        let m = code_len_at(s, i, k);
        if 1 <= m && i + m <= s.len() {
            strip_from(s, i + m, k)
        } else {
            seq![s[i]] + strip_from(s, i + 1, k)
        }
    } else {
        Seq::empty()
    }
}

/// The text with every shortcode of kind `k` removed.
pub open spec fn strip_all(s: Seq<char>, k: CodeKind) -> Seq<char> {
    strip_from(s, 0, k)
}

/// Does a shortcode of kind `k` occur anywhere in the text?
pub open spec fn contains_code_spec(s: Seq<char>, k: CodeKind) -> bool {
    exists|i: int| code_len_at(s, i, k) >= 0
}

/// Whitespace skipping stays within the string.
pub proof fn lemma_skip_ws_fwd_bounds(s: Seq<char>, i: int)
    requires
        0 <= i <= s.len(),
    ensures
        i <= skip_ws_fwd(s, i) <= s.len(),
    decreases s.len() - i,
{
    if i < s.len() && is_ws(s[i]) {
        lemma_skip_ws_fwd_bounds(s, i + 1);
    }
}

/// Digit skipping stays within the string.
pub proof fn lemma_skip_digits_fwd_bounds(s: Seq<char>, i: int)
    requires
        0 <= i <= s.len(),
    ensures
        i <= skip_digits_fwd(s, i) <= s.len(),
    decreases s.len() - i,
{
    if i < s.len() && is_digit(s[i]) {
        lemma_skip_digits_fwd_bounds(s, i + 1);
    }
}

/// Identifier skipping stays within the string.
pub proof fn lemma_skip_id_fwd_bounds(s: Seq<char>, i: int)
    requires
        0 <= i <= s.len(),
    ensures
        i <= skip_id_fwd(s, i) <= s.len(),
    decreases s.len() - i,
{
    if i < s.len() && is_id_char(s[i]) {
        lemma_skip_id_fwd_bounds(s, i + 1);
    }
}

/// A recognized shortcode has positive length and ends within the string.
pub proof fn lemma_code_len_at_bounds(s: Seq<char>, i: int, k: CodeKind)
    requires
        code_len_at(s, i, k) >= 0,
    ensures
        1 <= code_len_at(s, i, k),
        i + code_len_at(s, i, k) <= s.len(),
{
    let a = skip_ws_fwd(s, i + 1);
    lemma_skip_ws_fwd_bounds(s, i + 1);
    match k {
        CodeKind::NewAdventure => {
            lemma_skip_ws_fwd_bounds(s, a + word_new().len());
            let b = skip_ws_fwd(s, a + word_new().len());
            lemma_skip_ws_fwd_bounds(s, b + word_adventure().len());
        },
        CodeKind::NewCampaign => {
            lemma_skip_ws_fwd_bounds(s, a + word_new().len());
            let b = skip_ws_fwd(s, a + word_new().len());
            lemma_skip_ws_fwd_bounds(s, b + word_campaign().len());
        },
        CodeKind::Channel => {
            lemma_skip_ws_fwd_bounds(s, a + word_channel().len());
            let b = skip_ws_fwd(s, a + word_channel().len());
            lemma_skip_digits_fwd_bounds(s, b);
            let c = skip_digits_fwd(s, b);
            lemma_skip_ws_fwd_bounds(s, c);
        },
        CodeKind::Closed => {
            lemma_skip_ws_fwd_bounds(s, a + word_closed().len());
        },
        CodeKind::CampaignMarker => {
            lemma_skip_ws_fwd_bounds(s, a + word_campaign().len());
            let b = skip_ws_fwd(s, a + word_campaign().len());
            lemma_skip_id_fwd_bounds(s, b);
            let c = skip_id_fwd(s, b);
            lemma_skip_ws_fwd_bounds(s, c);
        },
    }
}

/// Skips whitespace forward from `i`.
fn scan_ws_fwd(s: &str, len: usize, i: usize) -> (r: usize)
    requires
        len == s@.len(),
        i <= len,
    ensures
        r == skip_ws_fwd(s@, i as int),
        i <= r <= len,
{
    let mut j: usize = i;
    while j < len && ws_at(s, j)
        invariant
            len == s@.len(),
            i <= j <= len,
            skip_ws_fwd(s@, i as int) == skip_ws_fwd(s@, j as int),
        decreases len - j,
    {
        j = j + 1;
    }
    j
}

/// Skips digits forward from `i`.
fn scan_digits_fwd(s: &str, len: usize, i: usize) -> (r: usize)
    requires
        len == s@.len(),
        i <= len,
    ensures
        r == skip_digits_fwd(s@, i as int),
        i <= r <= len,
{
    let mut j: usize = i;
    while j < len && digit_at(s, j)
        invariant
            len == s@.len(),
            i <= j <= len,
            skip_digits_fwd(s@, i as int) == skip_digits_fwd(s@, j as int),
        decreases len - j,
    {
        j = j + 1;
    }
    j
}

/// Skips identifier characters forward from `i`.
fn scan_id_fwd(s: &str, len: usize, i: usize) -> (r: usize)
    requires
        len == s@.len(),
        i <= len,
    ensures
        r == skip_id_fwd(s@, i as int),
        i <= r <= len,
{
    let mut j: usize = i;
    while j < len && id_char_at(s, j)
        invariant
            len == s@.len(),
            i <= j <= len,
            skip_id_fwd(s@, i as int) == skip_id_fwd(s@, j as int),
        decreases len - j,
    {
        j = j + 1;
    }
    j
}

/// Is the character at position `j` whitespace?
fn ws_at(s: &str, j: usize) -> (r: bool)
    requires
        j < s@.len(),
    ensures
        r == is_ws(s@[j as int]),
{
    let c = s.get_char(j);
    c == ' ' || c == '\t' || c == '\n' || c == '\r' || c as u32 == 0x0b || c as u32 == 0x0c
}

/// Is the character at position `j` a decimal digit?
fn digit_at(s: &str, j: usize) -> (r: bool)
    requires
        j < s@.len(),
    ensures
        r == is_digit(s@[j as int]),
{
    let u = s.get_char(j) as u32;
    48 <= u && u <= 57
}

/// May the character at position `j` stand in a marker identifier?
fn id_char_at(s: &str, j: usize) -> (r: bool)
    requires
        j < s@.len(),
    ensures
        r == is_id_char(s@[j as int]),
{
    let c = s.get_char(j);
    !(c == ' ' || c == '\t' || c == '\n' || c == '\r' || c as u32 == 0x0b || c as u32 == 0x0c || c
        == ']' || c == ')')
}

/// Does the lower-case word `w` occur at position `i`, case-insensitively?
fn word_at_exec(s: &str, len: usize, i: usize, w: &str, wlen: usize) -> (r: bool)
    requires
        len == s@.len(),
        wlen == w@.len(),
        i <= len,
    ensures
        r == word_at(s@, i as int, w@),
{
    if wlen > len - i {
        return false;
    }
    let mut j: usize = 0;
    while j < wlen
        invariant
            len == s@.len(),
            wlen == w@.len(),
            i + wlen <= len,
            0 <= j <= wlen,
            forall|q: int| 0 <= q < j ==> eq_ci(s@[i + q], #[trigger] w@[q]),
        decreases wlen - j,
    {
        let c = s.get_char(i + j);
        let l = w.get_char(j);
        if !(c == l || c as u32 + 32 == l as u32) {
            return false;
        }
        j = j + 1;
    }
    true
}

/// Length of the shortcode of kind `k` starting at position `i`, if any.
fn match_code_at(s: &str, len: usize, i: usize, k: CodeKind) -> (r: Option<usize>)
    requires
        len == s@.len(),
        i <= len,
    ensures
        match r {
            Some(m) => code_len_at(s@, i as int, k) == m as int && 1 <= m && i + m <= len,
            None => code_len_at(s@, i as int, k) < 0,
        },
{
    proof {
        reveal_strlit("new");
        reveal_strlit("adventure");
        reveal_strlit("campaign");
        reveal_strlit("channel");
        reveal_strlit("closed");
        assert("new"@ =~= word_new());
        assert("adventure"@ =~= word_adventure());
        assert("campaign"@ =~= word_campaign());
        assert("channel"@ =~= word_channel());
        assert("closed"@ =~= word_closed());
    }
    if i >= len {
        return None;
    }
    let c0 = s.get_char(i);
    if !(c0 == '[' || c0 == '(') {
        return None;
    }
    let a = scan_ws_fwd(s, len, i + 1);
    let e: Option<usize> = match k {
        CodeKind::NewAdventure => match_two_words(s, len, a, "new", 3, "adventure", 9),
        CodeKind::NewCampaign => match_two_words(s, len, a, "new", 3, "campaign", 8),
        CodeKind::Channel => match_keyword_digits(s, len, a, "channel", 7),
        CodeKind::Closed => match_one_word(s, len, a, "closed", 6),
        CodeKind::CampaignMarker => match_keyword_id(s, len, a, "campaign", 8),
    };
    match e {
        Some(end) => Some(end - i),
        None => None,
    }
}

/// Index just past the closing delimiter reached from `p`, if the shortcode
/// closes there.
fn match_close(s: &str, len: usize, p: usize) -> (r: Option<usize>)
    requires
        len == s@.len(),
        p <= len,
    ensures
        match r {
            Some(e) => close_tail(s@, p as int) == e as int && p < e <= len,
            None => close_tail(s@, p as int) < 0,
        },
{
    let q = scan_ws_fwd(s, len, p);
    if q < len {
        let c = s.get_char(q);
        if c == ']' || c == ')' {
            return Some(q + 1);
        }
    }
    None
}

/// Matches a one-word body plus closer starting at `a`.
fn match_one_word(s: &str, len: usize, a: usize, w: &str, wlen: usize) -> (r: Option<usize>)
    requires
        len == s@.len(),
        wlen == w@.len(),
        a <= len,
    ensures
        match r {
            Some(e) => one_word_tail(s@, a as int, w@) == e as int && a < e <= len,
            None => one_word_tail(s@, a as int, w@) < 0,
        },
{
    if !word_at_exec(s, len, a, w, wlen) {
        return None;
    }
    match_close(s, len, a + wlen)
}

/// Matches a two-word body plus closer starting at `a`.
fn match_two_words(
    s: &str,
    len: usize,
    a: usize,
    w1: &str,
    w1len: usize,
    w2: &str,
    w2len: usize,
) -> (r: Option<usize>)
    requires
        len == s@.len(),
        w1len == w1@.len(),
        w2len == w2@.len(),
        a <= len,
    ensures
        match r {
            Some(e) => two_word_tail(s@, a as int, w1@, w2@) == e as int && a < e <= len,
            None => two_word_tail(s@, a as int, w1@, w2@) < 0,
        },
{
    if !word_at_exec(s, len, a, w1, w1len) {
        return None;
    }
    let b = scan_ws_fwd(s, len, a + w1len);
    if !word_at_exec(s, len, b, w2, w2len) {
        return None;
    }
    match_close(s, len, b + w2len)
}

/// Matches a keyword-plus-digits body plus closer starting at `a`.
fn match_keyword_digits(s: &str, len: usize, a: usize, w: &str, wlen: usize) -> (r: Option<usize>)
    requires
        len == s@.len(),
        wlen == w@.len(),
        a <= len,
    ensures
        match r {
            Some(e) => keyword_digits_tail(s@, a as int, w@) == e as int && a < e <= len,
            None => keyword_digits_tail(s@, a as int, w@) < 0,
        },
{
    if !word_at_exec(s, len, a, w, wlen) {
        return None;
    }
    let b = scan_ws_fwd(s, len, a + wlen);
    let c = scan_digits_fwd(s, len, b);
    if c == b {
        return None;
    }
    match_close(s, len, c)
}

/// Matches a keyword-plus-identifier body plus closer starting at `a`.
fn match_keyword_id(s: &str, len: usize, a: usize, w: &str, wlen: usize) -> (r: Option<usize>)
    requires
        len == s@.len(),
        wlen == w@.len(),
        a <= len,
    ensures
        match r {
            Some(e) => keyword_id_tail(s@, a as int, w@) == e as int && a < e <= len,
            None => keyword_id_tail(s@, a as int, w@) < 0,
        },
{
    if !word_at_exec(s, len, a, w, wlen) {
        return None;
    }
    let b = scan_ws_fwd(s, len, a + wlen);
    let c = scan_id_fwd(s, len, b);
    if c == b {
        return None;
    }
    match_close(s, len, c)
}

/// Removes every shortcode of kind `k` from the text.
pub fn strip_code(s: &str, k: CodeKind) -> (r: String)
    ensures
        r@ == strip_all(s@, k),
{
    let len: usize = s.unicode_len();
    let mut out = String::new();
    let mut i: usize = 0;
    while i < len
        invariant
            len == s@.len(),
            0 <= i <= len,
            out@ + strip_from(s@, i as int, k) == strip_from(s@, 0, k),
        decreases len - i,
    {
        match match_code_at(s, len, i, k) {
            Some(m) => {
                i = i + m;
            },
            None => {
                let piece = s.substring_char(i, i + 1);
                proof {
                    assert(piece@ =~= seq![s@[i as int]]);
                    assert(out@ + piece@ + strip_from(s@, i as int + 1, k) == out@ + strip_from(
                        s@,
                        i as int,
                        k,
                    ));
                }
                out.append(piece);
                i = i + 1;
            },
        }
    }
    proof {
        assert(out@ + strip_from(s@, len as int, k) =~= out@);
    }
    out
}

/// The `[campaign X]` marker inserted when a description lacks one.
pub open spec fn campaign_marker_rep(id: Seq<char>) -> Seq<char> {
    seq!['\n', '[', 'c', 'a', 'm', 'p', 'a', 'i', 'g', 'n', ' '] + id + seq![']']
}

/// A continuation session's description: `[new adventure]`, `[new campaign]`
/// and `[channel N]` shortcodes are stripped; `[closed]` is stripped when the
/// session is an open event; and a `[campaign X]` marker referencing the
/// original event is appended when none is present.
pub open spec fn rewrite_description_rep(
    d: Seq<char>,
    old_event_id: Seq<char>,
    is_open: bool,
) -> Seq<char> {
    let d1 = strip_all(strip_all(d, CodeKind::NewAdventure), CodeKind::NewCampaign);
    let d2 = strip_all(d1, CodeKind::Channel);
    let d3 = if is_open {
        strip_all(d2, CodeKind::Closed)
    } else {
        d2
    };
    if contains_code_spec(d3, CodeKind::CampaignMarker) {
        d3
    } else {
        d3 + campaign_marker_rep(old_event_id)
    }
}

/// Applies the description rewrite rules for a continuation session.
pub fn rewrite_description(d: &str, old_event_id: &str, is_open_event: bool) -> (r: String)
    ensures
        r@ == rewrite_description_rep(d@, old_event_id@, is_open_event),
{
    let s1 = strip_code(d, CodeKind::NewAdventure);
    let s2 = strip_code(s1.as_str(), CodeKind::NewCampaign);
    let s3 = strip_code(s2.as_str(), CodeKind::Channel);
    let s4 = if is_open_event {
        strip_code(s3.as_str(), CodeKind::Closed)
    } else {
        s3
    };
    if contains_code(s4.as_str(), CodeKind::CampaignMarker) {
        s4
    } else {
        proof {
            reveal_strlit("\n[campaign ");
            reveal_strlit("]");
            assert("\n[campaign "@ =~= seq!['\n', '[', 'c', 'a', 'm', 'p', 'a', 'i', 'g', 'n', ' ']);
            assert("]"@ =~= seq![']']);
        }
        let mut r = s4;
        r.append("\n[campaign ");
        r.append(old_event_id);
        r.append("]");
        proof {
            assert(r@ =~= rewrite_description_rep(d@, old_event_id@, is_open_event));
        }
        r
    }
}

/// Does a shortcode of kind `k` occur anywhere in the text?
pub fn contains_code(s: &str, k: CodeKind) -> (r: bool)
    ensures
        r == contains_code_spec(s@, k),
{
    let len: usize = s.unicode_len();
    let mut i: usize = 0;
    while i < len
        invariant
            len == s@.len(),
            0 <= i <= len,
            forall|j: int| 0 <= j < i ==> code_len_at(s@, j, k) < 0,
        decreases len - i,
    {
        if let Some(_) = match_code_at(s, len, i, k) {
            return true;
        }
        i = i + 1;
    }
    proof {
        assert forall|j: int| !(code_len_at(s@, j, k) >= 0) by {
            if 0 <= j < len {
            } else {
                assert(code_len_at(s@, j, k) == -1);
            }
        }
    }
    false
}

} // verus!
