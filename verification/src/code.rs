//! Catalog code recognition and normalisation.
//!
//! A catalog code has the canonical shape `LETTERS-DIGITS`.  Scraped titles
//! and queries carry it in looser forms: either case, with a hyphen,
//! underscore, space or nothing between the letter and digit part.  This
//! module decides whether a query is code-shaped and recovers a canonical
//! code from a noisy title.

use vstd::prelude::*;
use crate::chars::{
    is_letter, is_digit, is_code_sep, digit_run_len, letter_run_len, upper_seq, upper_ch, letter_run,
    digit_run, code_sep_ch, upper_str, lemma_letter_run, lemma_digit_run, lemma_letter_run_is,
    lemma_digit_run_is, lemma_digit_run_at_least,
};

verus! {

/// The letter part may take a trailing separator only when at least two
/// digits follow it; otherwise the digits must start immediately.
pub open spec fn code_tail_ok(s: Seq<char>, q: int) -> bool {
    (q < s.len() && s[q] == '-' && digit_run_len(s, q + 1) >= 2) || digit_run_len(s, q) >= 2
}

/// A code-shaped prefix: 2 to 5 letters, an optional hyphen, then at least
/// two digits.
pub open spec fn looks_like_code_spec(s: Seq<char>) -> bool {
    let l = letter_run_len(s, 0);
    2 <= l <= 5 && code_tail_ok(s, l)
}

pub fn looks_like_code(s: &str) -> (r: bool)
    ensures
        r == looks_like_code_spec(s@),
{
    let n = s.unicode_len();
    let l = letter_run(s, 0);
    if l < 2 || l > 5 {
        return false;
    }
    if l < n && s.get_char(l) == '-' {
        if digit_run(s, l + 1) >= 2 {
            return true;
        }
    }
    digit_run(s, l) >= 2
}

/// One decomposition of a prefix of `s` as the anchored pattern
/// `[A-Za-z]{2,5}-?[0-9]{2,5}`: `k` letters, a hyphen if `h`, `d` digits.
pub open spec fn code_decomp(s: Seq<char>, k: int, h: bool, d: int) -> bool {
    let hl: int = if h {
        1
    } else {
        0
    };
    &&& 2 <= k <= 5
    &&& 2 <= d <= 5
    &&& k + hl + d <= s.len()
    &&& forall|q: int| 0 <= q < k ==> is_letter(#[trigger] s[q])
    &&& (h ==> s[k] == '-')
    &&& forall|q: int| k + hl <= q < k + hl + d ==> is_digit(#[trigger] s[q])
}

/// A prefix of `s` matches the anchored pattern `[A-Za-z]{2,5}-?[0-9]{2,5}`.
pub open spec fn code_shaped_prefix(s: Seq<char>) -> bool {
    exists|k: int, h: bool, d: int| code_decomp(s, k, h, d)
}

/// Law: the recogniser accepts exactly the strings whose prefix matches the
/// anchored pattern `[A-Za-z]{2,5}-?[0-9]{2,5}`.
pub proof fn lemma_looks_like_code_pattern(s: Seq<char>)
    ensures
        looks_like_code_spec(s) == code_shaped_prefix(s),
{
    lemma_letter_run(s, 0);
    let l = letter_run_len(s, 0);
    if looks_like_code_spec(s) {
        if l < s.len() && s[l] == '-' && digit_run_len(s, l + 1) >= 2 {
            lemma_digit_run(s, l + 1);
            let dr = digit_run_len(s, l + 1);
            let d: int = if dr > 5 {
                5
            } else {
                dr
            };
            assert(code_decomp(s, l, true, d));
        } else {
            lemma_digit_run(s, l);
            let dr = digit_run_len(s, l);
            let d: int = if dr > 5 {
                5
            } else {
                dr
            };
            assert(code_decomp(s, l, false, d));
        }
    }
    if code_shaped_prefix(s) {
        let (k, h, d) = choose|k: int, h: bool, d: int| code_decomp(s, k, h, d);
        assert(code_decomp(s, k, h, d));
        let hl: int = if h {
            1
        } else {
            0
        };
        assert(!is_letter(s[k]));
        lemma_letter_run_is(s, 0, k);
        if h {
            lemma_digit_run_at_least(s, k + 1, d);
        } else {
            lemma_digit_run_at_least(s, k, d);
        }
    }
}

/// Law: a string with no letter directly followed by a digit, and no letter
/// followed by a hyphen and a digit, is never taken for a code.
pub proof fn lemma_looks_like_code_needs_adjacency(s: Seq<char>)
    requires
        forall|p: int|
            0 <= p < s.len() - 1 ==> !(is_letter(#[trigger] s[p]) && is_digit(s[p + 1])),
        forall|p: int|
            0 <= p < s.len() - 2 ==> !(is_letter(#[trigger] s[p]) && s[p + 1] == '-' && is_digit(
                s[p + 2],
            )),
    ensures
        !looks_like_code_spec(s),
{
    lemma_letter_run(s, 0);
    let l = letter_run_len(s, 0);
    if looks_like_code_spec(s) {
        assert(is_letter(s[l - 1]));
        if l < s.len() && s[l] == '-' && digit_run_len(s, l + 1) >= 2 {
            lemma_digit_run(s, l + 1);
            assert(is_digit(s[l + 1]));
            assert(false);
        } else {
            lemma_digit_run(s, l);
            assert(is_digit(s[l]));
            assert(false);
        }
    }
}

/// Whether the unanchored pattern `([A-Za-z]{2,5})[-_ ]?([0-9]{2,5})`
/// matches starting exactly at position `p`.
pub open spec fn ext_tail_ok(s: Seq<char>, q: int) -> bool {
    (q < s.len() && is_code_sep(s[q]) && digit_run_len(s, q + 1) >= 2) || digit_run_len(s, q) >= 2
}

pub open spec fn ext_match_at(s: Seq<char>, p: int) -> bool {
    let r = letter_run_len(s, p);
    2 <= r <= 5 && ext_tail_ok(s, p + r)
}

/// The canonical code recovered from a match at `p`: letters upper-cased,
/// a single hyphen, then the digit part (at most five digits).
pub open spec fn ext_code_at(s: Seq<char>, p: int) -> Seq<char> {
    let r = letter_run_len(s, p);
    let q0 = p + r;
    let q: int = if q0 < s.len() && is_code_sep(s[q0]) && digit_run_len(s, q0 + 1) >= 2 {
        q0 + 1
    } else {
        q0
    };
    let dr = digit_run_len(s, q);
    let d: int = if dr > 5 {
        5
    } else {
        dr
    };
    upper_seq(s.subrange(p, q0)) + seq!['-'] + s.subrange(q, q + d)
}

/// Position of the leftmost match of the unanchored pattern, from `p` on.
pub open spec fn ext_first_pos(s: Seq<char>, p: int) -> Option<int>
    decreases s.len() - p,
{
    if p < 0 || p >= s.len() {
        None
    } else if ext_match_at(s, p) {
        Some(p)
    } else {
        ext_first_pos(s, p + 1)
    }
}

/// The canonical code recovered from a title, if any part of it is
/// code-shaped; the leftmost, longest-letter match wins.
pub open spec fn extract_code_spec(s: Seq<char>) -> Option<Seq<char>> {
    match ext_first_pos(s, 0) {
        None => None,
        Some(p) => Some(ext_code_at(s, p)),
    }
}

pub open spec fn is_upper_letter(c: char) -> bool {
    65 <= c as u32 && c as u32 <= 90
}

/// One reading of `s` as a canonical code: `k` upper-case letters, a
/// hyphen, `d` digits, nothing else.
pub open spec fn canonical_decomp(s: Seq<char>, k: int, d: int) -> bool {
    &&& 2 <= k <= 5
    &&& 2 <= d <= 5
    &&& s.len() == k + 1 + d
    &&& (forall|q: int| 0 <= q < k ==> is_upper_letter(#[trigger] s[q]))
    &&& s[k] == '-'
    &&& (forall|q: int| k + 1 <= q < s.len() ==> is_digit(#[trigger] s[q]))
}

/// The canonical code shape: 2-5 upper-case letters, one hyphen, 2-5
/// digits, nothing else.
pub open spec fn canonical_code(s: Seq<char>) -> bool {
    exists|k: int, d: int| canonical_decomp(s, k, d)
}

proof fn lemma_ext_first_pos_match(s: Seq<char>, q: int, p: int)
    requires
        ext_first_pos(s, q) == Some(p),
    ensures
        0 <= p < s.len(),
        ext_match_at(s, p),
    decreases s.len() - q,
{
    if !(q < 0 || q >= s.len()) && !ext_match_at(s, q) {
        lemma_ext_first_pos_match(s, q + 1, p);
    }
}

proof fn lemma_upper_of_letter(c: char)
    requires
        is_letter(c),
    ensures
        is_upper_letter(upper_ch(c)),
{
}

/// The code read at any match position has the canonical shape.
pub proof fn lemma_ext_code_at_canonical(s: Seq<char>, p: int)
    requires
        0 <= p < s.len(),
        ext_match_at(s, p),
    ensures
        canonical_code(ext_code_at(s, p)),
{
    let c = ext_code_at(s, p);
    lemma_letter_run(s, p);
    let r = letter_run_len(s, p);
    let q0 = p + r;
    let q: int = if q0 < s.len() && is_code_sep(s[q0]) && digit_run_len(s, q0 + 1) >= 2 {
        q0 + 1
    } else {
        q0
    };
    lemma_digit_run(s, q);
    let dr = digit_run_len(s, q);
    assert(dr >= 2);
    let d: int = if dr > 5 {
        5
    } else {
        dr
    };
    assert(c.len() == r + 1 + d);
    assert forall|i: int| 0 <= i < r implies is_upper_letter(#[trigger] c[i]) by {
        assert(c[i] == upper_seq(s.subrange(p, q0))[i]);
        assert(upper_seq(s.subrange(p, q0))[i] == upper_ch(s[p + i]));
        lemma_upper_of_letter(s[p + i]);
    }
    assert(c[r as int] == '-');
    assert forall|i: int| r + 1 <= i < c.len() implies is_digit(#[trigger] c[i]) by {
        assert(c[i] == s.subrange(q, q + d)[i - r - 1]);
        assert(s.subrange(q, q + d)[i - r - 1] == s[q + (i - r - 1)]);
    }
    assert(canonical_decomp(c, r, d));
}

/// Law: a code recovered from a title always has the canonical shape —
/// letters upper-cased, one inserted hyphen, then the digit part.
pub proof fn lemma_extracted_code_canonical(s: Seq<char>, c: Seq<char>)
    requires
        extract_code_spec(s) == Some(c),
    ensures
        canonical_code(c),
{
    let p = ext_first_pos(s, 0).unwrap();
    lemma_ext_first_pos_match(s, 0, p);
    lemma_ext_code_at_canonical(s, p);
}

/// A string the recogniser accepts carries a match of the unanchored
/// pattern at its very start, so a code can always be read off it.
pub proof fn lemma_looks_implies_ext_match(s: Seq<char>)
    requires
        looks_like_code_spec(s),
    ensures
        ext_match_at(s, 0),
        ext_first_pos(s, 0) == Some(0int),
        s.len() >= 2,
{
    lemma_letter_run(s, 0);
}

/// Law: every canonical code is accepted by the recogniser, so a code
/// recovered from a listing can always serve as a direct lookup.
pub proof fn lemma_canonical_looks_like_code(s: Seq<char>)
    requires
        canonical_code(s),
    ensures
        looks_like_code_spec(s),
{
    let (k, d) = choose|k: int, d: int| canonical_decomp(s, k, d);
    assert(canonical_decomp(s, k, d));
    assert(code_decomp(s, k, true, d));
    lemma_looks_like_code_pattern(s);
}

pub fn extract_code_from_title(title: &str) -> (r: Option<String>)
    ensures
        match r {
            None => extract_code_spec(title@) is None,
            Some(code) => extract_code_spec(title@) == Some(code@),
        },
{
    let n = title.unicode_len();
    let mut p: usize = 0;
    while p < n
        invariant
            0 <= p <= n,
            n == title@.len(),
            ext_first_pos(title@, 0) == ext_first_pos(title@, p as int),
        decreases n - p,
    {
        let r = letter_run(title, p);
        if 2 <= r && r <= 5 {
            let q0 = p + r;
            let sep_ok = q0 < n && code_sep_ch(title.get_char(q0)) && digit_run(title, q0 + 1)
                >= 2;
            let q: usize = if sep_ok {
                q0 + 1
            } else {
                q0
            };
            let dr = digit_run(title, q);
            if dr >= 2 {
                assert(ext_match_at(title@, p as int));
                let d: usize = if dr > 5 {
                    5
                } else {
                    dr
                };
                let letters = title.substring_char(p, q0);
                let upper = upper_str(letters);
                let digits = title.substring_char(q, q + d);
                let code = upper.concat("-").concat(digits);
                proof {
                    reveal_strlit("-");
                    assert(code@ =~= ext_code_at(title@, p as int));
                }
                return Some(code);
            }
            assert(!ext_match_at(title@, p as int));
        } else {
            assert(!ext_match_at(title@, p as int));
        }
        p += 1;
    }
    None
}

/// Length of the upper-case letter run starting at position `p`.
pub open spec fn upper_run_len(s: Seq<char>, p: int) -> int
    decreases s.len() - p,
{
    if p < 0 || p >= s.len() || !is_upper_letter(s[p]) {
        0
    } else {
        1 + upper_run_len(s, p + 1)
    }
}

pub proof fn lemma_upper_run(s: Seq<char>, p: int)
    requires
        0 <= p <= s.len(),
    ensures
        0 <= upper_run_len(s, p),
        p + upper_run_len(s, p) <= s.len(),
        forall|q: int| p <= q < p + upper_run_len(s, p) ==> is_upper_letter(#[trigger] s[q]),
        p + upper_run_len(s, p) == s.len() || !is_upper_letter(s[p + upper_run_len(s, p)]),
    decreases s.len() - p,
{
    if p < s.len() && is_upper_letter(s[p]) {
        lemma_upper_run(s, p + 1);
    }
}

pub proof fn lemma_upper_run_is(s: Seq<char>, p: int, i: int)
    requires
        0 <= p <= i <= s.len(),
        forall|q: int| p <= q < i ==> is_upper_letter(#[trigger] s[q]),
        i == s.len() || !is_upper_letter(s[i]),
    ensures
        upper_run_len(s, p) == i - p,
    decreases i - p,
{
    if p < i {
        lemma_upper_run_is(s, p + 1, i);
    }
}

fn upper_letter_ch(c: char) -> (r: bool)
    ensures
        r == is_upper_letter(c),
{
    let u = c as u32;
    65 <= u && u <= 90
}

fn upper_run(s: &str, p: usize) -> (n: usize)
    requires
        p <= s@.len(),
    ensures
        n == upper_run_len(s@, p as int),
        p + n <= s@.len(),
{
    let len = s.unicode_len();
    let mut i: usize = p;
    while i < len && upper_letter_ch(s.get_char(i))
        invariant
            p <= i <= len,
            len == s@.len(),
            forall|q: int| p <= q < i ==> is_upper_letter(#[trigger] s@[q]),
        decreases len - i,
    {
        i += 1;
    }
    proof {
        lemma_upper_run_is(s@, p as int, i as int);
    }
    i - p
}

/// Decides whether a text is a canonical code, exactly.
pub fn canonical_code_check(s: &str) -> (r: bool)
    ensures
        r == canonical_code(s@),
{
    let n = s.unicode_len();
    let k = upper_run(s, 0);
    let mut ok = false;
    let mut d: usize = 0;
    if 2 <= k && k <= 5 && k < n && s.get_char(k) == '-' {
        d = digit_run(s, k + 1);
        ok = 2 <= d && d <= 5 && k + 1 + d == n;
    }
    proof {
        if ok {
            lemma_upper_run(s@, 0);
            lemma_digit_run(s@, k + 1);
            assert(canonical_decomp(s@, k as int, d as int));
        }
        if canonical_code(s@) {
            let (k2, d2) = choose|k2: int, d2: int| canonical_decomp(s@, k2, d2);
            assert(canonical_decomp(s@, k2, d2));
            assert(!is_upper_letter(s@[k2]));
            lemma_upper_run_is(s@, 0, k2);
            lemma_digit_run_is(s@, k2 + 1, n as int);
            assert(ok);
        }
    }
    ok
}

} // verus!
