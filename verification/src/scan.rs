//! Free-text scans over a fetched document.
//!
//! The structured passes of an extractor do not always find every field, so
//! a final pass scans the document's visible text for fixed shapes: a
//! duration followed by a minutes unit, a rating after its label, an ISO
//! date, and magnet URIs.  Each scan returns the leftmost occurrence, as
//! the field extraction policy is first-match-wins.

use vstd::prelude::*;
use crate::chars::{
    is_digit, is_space, digit_run_len, space_run_len, digits_val, occurs_at, digit_run,
    space_run, digit_ch, space_ch, parse_digits, occurs_here, lemma_digit_run,
};

verus! {

// ---------------------------------------------------------------------------
// Duration: a 2-3 digit number followed by optional whitespace and a
// minutes unit.
// ---------------------------------------------------------------------------

/// A 2-3 digit number at `p` followed by optional whitespace and `min`.
pub open spec fn dur_en_match_at(s: Seq<char>, p: int) -> bool {
    let dr = digit_run_len(s, p);
    2 <= dr <= 3 && occurs_at(s, "min"@, p + dr + space_run_len(s, p + dr))
}

pub open spec fn dur_en_first(s: Seq<char>, p: int) -> Option<int>
    decreases s.len() - p,
{
    if p < 0 || p >= s.len() {
        None
    } else if dur_en_match_at(s, p) {
        Some(p)
    } else {
        dur_en_first(s, p + 1)
    }
}

/// Leftmost `digits + optional spaces + "min"` occurrence, as a number.
pub open spec fn duration_en_spec(s: Seq<char>) -> Option<int> {
    match dur_en_first(s, 0) {
        None => None,
        Some(p) => Some(digits_val(s.subrange(p, p + digit_run_len(s, p)))),
    }
}

/// A unit accepted by the wider duration scan: a CJK minutes word or the
/// Latin unit in either case.
pub open spec fn dur_unit_at(s: Seq<char>, q: int) -> bool {
    (q < s.len() && s[q] == '分') || occurs_at(s, "min"@, q) || occurs_at(s, "MIN"@, q)
}

pub open spec fn dur_any_match_at(s: Seq<char>, p: int) -> bool {
    let dr = digit_run_len(s, p);
    2 <= dr <= 3 && dur_unit_at(s, p + dr + space_run_len(s, p + dr))
}

pub open spec fn dur_any_first(s: Seq<char>, p: int) -> Option<int>
    decreases s.len() - p,
{
    if p < 0 || p >= s.len() {
        None
    } else if dur_any_match_at(s, p) {
        Some(p)
    } else {
        dur_any_first(s, p + 1)
    }
}

/// Leftmost duration with any accepted unit, as a number.
pub open spec fn duration_any_spec(s: Seq<char>) -> Option<int> {
    match dur_any_first(s, 0) {
        None => None,
        Some(p) => Some(digits_val(s.subrange(p, p + digit_run_len(s, p)))),
    }
}

pub fn scan_duration_en(s: &str) -> (r: Option<u32>)
    ensures
        match r {
            None => duration_en_spec(s@) is None,
            Some(v) => duration_en_spec(s@) == Some(v as int),
        },
{
    let n = s.unicode_len();
    let mut p: usize = 0;
    while p < n
        invariant
            0 <= p <= n,
            n == s@.len(),
            dur_en_first(s@, 0) == dur_en_first(s@, p as int),
        decreases n - p,
    {
        let dr = digit_run(s, p);
        if 2 <= dr && dr <= 3 {
            let sr = space_run(s, p + dr);
            if occurs_here(s, "min", p + dr + sr) {
                proof {
                    lemma_digit_run(s@, p as int);
                }
                let v = parse_digits(s, p, p + dr);
                return Some(v);
            }
        }
        p += 1;
    }
    None
}

pub fn scan_duration_any(s: &str) -> (r: Option<u32>)
    ensures
        match r {
            None => duration_any_spec(s@) is None,
            Some(v) => duration_any_spec(s@) == Some(v as int),
        },
{
    let n = s.unicode_len();
    let mut p: usize = 0;
    while p < n
        invariant
            0 <= p <= n,
            n == s@.len(),
            dur_any_first(s@, 0) == dur_any_first(s@, p as int),
        decreases n - p,
    {
        let dr = digit_run(s, p);
        if 2 <= dr && dr <= 3 {
            let q = p + dr + space_run(s, p + dr);
            let unit = (q < n && s.get_char(q) == '分') || occurs_here(s, "min", q)
                || occurs_here(s, "MIN", q);
            if unit {
                proof {
                    lemma_digit_run(s@, p as int);
                }
                let v = parse_digits(s, p, p + dr);
                return Some(v);
            }
        }
        p += 1;
    }
    None
}

// ---------------------------------------------------------------------------
// Rating: a decimal number after a rating label.
// ---------------------------------------------------------------------------

/// End of the decimal number starting at `q`: an integer part, optionally
/// followed by a point and a fraction part.
pub open spec fn decimal_end(s: Seq<char>, q: int) -> int {
    let d1 = digit_run_len(s, q);
    if q + d1 < s.len() && s[q + d1] == '.' && digit_run_len(s, q + d1 + 1) >= 1 {
        q + d1 + 1 + digit_run_len(s, q + d1 + 1)
    } else {
        q + d1
    }
}

/// Where the number after a label of `ll` characters at `p` would start.
pub open spec fn after_label(s: Seq<char>, p: int, ll: int) -> int {
    p + ll + space_run_len(s, p + ll)
}

pub open spec fn rating_en_match_at(s: Seq<char>, p: int) -> bool {
    occurs_at(s, "Rating"@, p) && {
        let q = after_label(s, p, 6);
        q < s.len() && is_digit(s[q])
    }
}

pub open spec fn rating_en_first(s: Seq<char>, p: int) -> Option<int>
    decreases s.len() - p,
{
    if p < 0 || p >= s.len() {
        None
    } else if rating_en_match_at(s, p) {
        Some(p)
    } else {
        rating_en_first(s, p + 1)
    }
}

/// Leftmost decimal after a `Rating` label, as text.
pub open spec fn rating_en_spec(s: Seq<char>) -> Option<Seq<char>> {
    match rating_en_first(s, 0) {
        None => None,
        Some(p) => {
            let q = after_label(s, p, 6);
            Some(s.subrange(q, decimal_end(s, q)))
        },
    }
}

pub open spec fn rating_alt_match_at(s: Seq<char>, p: int) -> bool {
    ||| (occurs_at(s, "评分"@, p) && {
        let q = after_label(s, p, 2);
        q < s.len() && is_digit(s[q])
    })
    ||| (occurs_at(s, "Score"@, p) && {
        let q = after_label(s, p, 5);
        q < s.len() && is_digit(s[q])
    })
}

pub open spec fn rating_alt_first(s: Seq<char>, p: int) -> Option<int>
    decreases s.len() - p,
{
    if p < 0 || p >= s.len() {
        None
    } else if rating_alt_match_at(s, p) {
        Some(p)
    } else {
        rating_alt_first(s, p + 1)
    }
}

/// Label length taken at an alternative-label match: the CJK label wins
/// when both alternatives could start at `p`.
pub open spec fn rating_alt_label_len(s: Seq<char>, p: int) -> int {
    if occurs_at(s, "评分"@, p) && {
        let q = after_label(s, p, 2);
        q < s.len() && is_digit(s[q])
    } {
        2
    } else {
        5
    }
}

/// Leftmost decimal after a `评分` or `Score` label, as text.
pub open spec fn rating_alt_spec(s: Seq<char>) -> Option<Seq<char>> {
    match rating_alt_first(s, 0) {
        None => None,
        Some(p) => {
            let q = after_label(s, p, rating_alt_label_len(s, p));
            Some(s.subrange(q, decimal_end(s, q)))
        },
    }
}

/// Reads the decimal number starting at `q` out of `s`.
fn take_decimal(s: &str, q: usize) -> (r: String)
    requires
        q <= s@.len(),
    ensures
        r@ == s@.subrange(q as int, decimal_end(s@, q as int)),
        decimal_end(s@, q as int) <= s@.len(),
{
    let n = s.unicode_len();
    let d1 = digit_run(s, q);
    let e1 = q + d1;
    if e1 < n && s.get_char(e1) == '.' && digit_run(s, e1 + 1) >= 1 {
        let d2 = digit_run(s, e1 + 1);
        let m = s.substring_char(q, e1 + 1 + d2);
        String::from_str(m)
    } else {
        let m = s.substring_char(q, e1);
        String::from_str(m)
    }
}

pub fn scan_rating_en(s: &str) -> (r: Option<String>)
    ensures
        match r {
            None => rating_en_spec(s@) is None,
            Some(v) => rating_en_spec(s@) == Some(v@),
        },
{
    let n = s.unicode_len();
    let mut p: usize = 0;
    while p < n
        invariant
            0 <= p <= n,
            n == s@.len(),
            rating_en_first(s@, 0) == rating_en_first(s@, p as int),
        decreases n - p,
    {
        if occurs_here(s, "Rating", p) {
            proof {
                reveal_strlit("Rating");
            }
            let q = p + 6 + space_run(s, p + 6);
            if q < n && digit_ch(s.get_char(q)) {
                return Some(take_decimal(s, q));
            }
        }
        p += 1;
    }
    None
}

pub fn scan_rating_alt(s: &str) -> (r: Option<String>)
    ensures
        match r {
            None => rating_alt_spec(s@) is None,
            Some(v) => rating_alt_spec(s@) == Some(v@),
        },
{
    let n = s.unicode_len();
    let mut p: usize = 0;
    while p < n
        invariant
            0 <= p <= n,
            n == s@.len(),
            rating_alt_first(s@, 0) == rating_alt_first(s@, p as int),
        decreases n - p,
    {
        if occurs_here(s, "评分", p) {
            proof {
                reveal_strlit("评分");
            }
            let q = p + 2 + space_run(s, p + 2);
            if q < n && digit_ch(s.get_char(q)) {
                assert(rating_alt_label_len(s@, p as int) == 2);
                return Some(take_decimal(s, q));
            }
        }
        if occurs_here(s, "Score", p) {
            proof {
                reveal_strlit("Score");
            }
            let q = p + 5 + space_run(s, p + 5);
            if q < n && digit_ch(s.get_char(q)) {
                assert(rating_alt_label_len(s@, p as int) == 5);
                return Some(take_decimal(s, q));
            }
        }
        assert(!rating_alt_match_at(s@, p as int));
        p += 1;
    }
    None
}

// ---------------------------------------------------------------------------
// Release date: an ISO date in this century.
// ---------------------------------------------------------------------------

pub open spec fn date_match_at(s: Seq<char>, p: int) -> bool {
    &&& p + 10 <= s.len()
    &&& s[p] == '2'
    &&& s[p + 1] == '0'
    &&& is_digit(s[p + 2])
    &&& is_digit(s[p + 3])
    &&& s[p + 4] == '-'
    &&& is_digit(s[p + 5])
    &&& is_digit(s[p + 6])
    &&& s[p + 7] == '-'
    &&& is_digit(s[p + 8])
    &&& is_digit(s[p + 9])
}

pub open spec fn date_first(s: Seq<char>, p: int) -> Option<int>
    decreases s.len() - p,
{
    if p < 0 || p >= s.len() {
        None
    } else if date_match_at(s, p) {
        Some(p)
    } else {
        date_first(s, p + 1)
    }
}

/// Leftmost `20YY-MM-DD` shaped text.
pub open spec fn date_spec(s: Seq<char>) -> Option<Seq<char>> {
    match date_first(s, 0) {
        None => None,
        Some(p) => Some(s.subrange(p, p + 10)),
    }
}

fn date_check_at(s: &str, p: usize, n: usize) -> (r: bool)
    requires
        n == s@.len(),
        p < n,
    ensures
        r == date_match_at(s@, p as int),
{
    if n - p < 10 {
        return false;
    }
    s.get_char(p) == '2' && s.get_char(p + 1) == '0' && digit_ch(s.get_char(p + 2)) && digit_ch(
        s.get_char(p + 3),
    ) && s.get_char(p + 4) == '-' && digit_ch(s.get_char(p + 5)) && digit_ch(s.get_char(p + 6))
        && s.get_char(p + 7) == '-' && digit_ch(s.get_char(p + 8)) && digit_ch(s.get_char(p + 9))
}

pub fn scan_date(s: &str) -> (r: Option<String>)
    ensures
        match r {
            None => date_spec(s@) is None,
            Some(v) => date_spec(s@) == Some(v@),
        },
{
    let n = s.unicode_len();
    let mut p: usize = 0;
    while p < n
        invariant
            0 <= p <= n,
            n == s@.len(),
            date_first(s@, 0) == date_first(s@, p as int),
        decreases n - p,
    {
        if date_check_at(s, p, n) {
            let m = s.substring_char(p, p + 10);
            return Some(String::from_str(m));
        }
        p += 1;
    }
    None
}

// ---------------------------------------------------------------------------
// Magnet URIs: `magnet:?xt=urn:` followed by at least one character that is
// not a quote, whitespace or an angle bracket; the run is maximal.
// ---------------------------------------------------------------------------

/// A character that may stand inside a magnet URI.
pub open spec fn is_magnet_body(c: char) -> bool {
    !(c == '"' || c == '\'' || is_space(c) || c == '<' || c == '>')
}

/// Length of the magnet-body run starting at `p`.
pub open spec fn magnet_body_run_len(s: Seq<char>, p: int) -> int
    decreases s.len() - p,
{
    if p < 0 || p >= s.len() || !is_magnet_body(s[p]) {
        0
    } else {
        1 + magnet_body_run_len(s, p + 1)
    }
}

pub proof fn lemma_magnet_body_run(s: Seq<char>, p: int)
    requires
        0 <= p <= s.len(),
    ensures
        0 <= magnet_body_run_len(s, p),
        p + magnet_body_run_len(s, p) <= s.len(),
    decreases s.len() - p,
{
    if p < s.len() && is_magnet_body(s[p]) {
        lemma_magnet_body_run(s, p + 1);
    }
}

pub proof fn lemma_magnet_body_run_is(s: Seq<char>, p: int, i: int)
    requires
        0 <= p <= i <= s.len(),
        forall|q: int| p <= q < i ==> is_magnet_body(#[trigger] s[q]),
        i == s.len() || !is_magnet_body(s[i]),
    ensures
        magnet_body_run_len(s, p) == i - p,
    decreases i - p,
{
    if p < i {
        lemma_magnet_body_run_is(s, p + 1, i);
    }
}

fn magnet_body_ch(c: char) -> (r: bool)
    ensures
        r == is_magnet_body(c),
{
    !(c == '"' || c == '\'' || space_ch(c) || c == '<' || c == '>')
}

fn magnet_body_run(s: &str, p: usize) -> (n: usize)
    requires
        p <= s@.len(),
    ensures
        n == magnet_body_run_len(s@, p as int),
        p + n <= s@.len(),
{
    let len = s.unicode_len();
    let mut i: usize = p;
    while i < len && magnet_body_ch(s.get_char(i))
        invariant
            p <= i <= len,
            len == s@.len(),
            forall|q: int| p <= q < i ==> is_magnet_body(#[trigger] s@[q]),
        decreases len - i,
    {
        i += 1;
    }
    proof {
        lemma_magnet_body_run_is(s@, p as int, i as int);
    }
    i - p
}

pub open spec fn magnet_match_at(s: Seq<char>, p: int) -> bool {
    occurs_at(s, "magnet:?xt=urn:"@, p) && magnet_body_run_len(s, p + 15) >= 1
}

pub open spec fn magnet_end(s: Seq<char>, p: int) -> int {
    let e = p + 15 + magnet_body_run_len(s, p + 15);
    if e <= s.len() {
        e
    } else {
        s.len() as int
    }
}

/// All magnet URIs in `s` from position `p` on, leftmost first,
/// non-overlapping, each extended as far as its characters allow.
pub open spec fn magnet_list_from(s: Seq<char>, p: int) -> Seq<Seq<char>>
    decreases s.len() - p,
{
    if p < 0 || p >= s.len() {
        Seq::empty()
    } else if magnet_match_at(s, p) {
        seq![s.subrange(p, magnet_end(s, p))] + magnet_list_from(s, magnet_end(s, p))
    } else {
        magnet_list_from(s, p + 1)
    }
}

/// The magnet URIs of a raw document, in document order, duplicates kept.
pub open spec fn magnets_spec(s: Seq<char>) -> Seq<Seq<char>> {
    magnet_list_from(s, 0)
}

pub fn scan_magnets(s: &str) -> (r: Vec<String>)
    ensures
        r.deep_view() == magnets_spec(s@),
{
    let n = s.unicode_len();
    let mut out: Vec<String> = Vec::new();
    let mut p: usize = 0;
    while p < n
        invariant
            0 <= p <= n,
            n == s@.len(),
            magnets_spec(s@) =~~= out.deep_view() + magnet_list_from(s@, p as int),
        decreases n - p,
    {
        let ghost prev = out.deep_view();
        if occurs_here(s, "magnet:?xt=urn:", p) {
            proof {
                reveal_strlit("magnet:?xt=urn:");
            }
            let br = magnet_body_run(s, p + 15);
            if br >= 1 {
                let e = p + 15 + br;
                let m = s.substring_char(p, e);
                out.push(String::from_str(m));
                proof {
                    assert(magnet_match_at(s@, p as int));
                    assert(magnet_end(s@, p as int) == e as int);
                    assert(out.deep_view() =~~= prev.push(s@.subrange(p as int, e as int)));
                    assert(magnets_spec(s@) =~~= out.deep_view() + magnet_list_from(
                        s@,
                        e as int,
                    ));
                }
                p = e;
                continue ;
            }
        }
        assert(!magnet_match_at(s@, p as int));
        p += 1;
    }
    proof {
        assert(magnet_list_from(s@, p as int) =~~= Seq::<Seq<char>>::empty());
        assert(magnets_spec(s@) =~~= out.deep_view());
    }
    out
}

// ---------------------------------------------------------------------------
// Table cells: the first plain number and the first decimal in a cell.
// ---------------------------------------------------------------------------

pub open spec fn number_match_at(s: Seq<char>, p: int) -> bool {
    digit_run_len(s, p) >= 2
}

pub open spec fn number_first(s: Seq<char>, p: int) -> Option<int>
    decreases s.len() - p,
{
    if p < 0 || p >= s.len() {
        None
    } else if number_match_at(s, p) {
        Some(p)
    } else {
        number_first(s, p + 1)
    }
}

/// Leftmost 2-3 digit number in `s`: a digit run of at least two, of which
/// at most the first three digits are read.
pub open spec fn first_number_spec(s: Seq<char>) -> Option<int> {
    match number_first(s, 0) {
        None => None,
        Some(p) => {
            let dr = digit_run_len(s, p);
            let d: int = if dr > 3 {
                3
            } else {
                dr
            };
            Some(digits_val(s.subrange(p, p + d)))
        },
    }
}

pub fn scan_first_number(s: &str) -> (r: Option<u32>)
    ensures
        match r {
            None => first_number_spec(s@) is None,
            Some(v) => first_number_spec(s@) == Some(v as int),
        },
{
    let n = s.unicode_len();
    let mut p: usize = 0;
    while p < n
        invariant
            0 <= p <= n,
            n == s@.len(),
            number_first(s@, 0) == number_first(s@, p as int),
        decreases n - p,
    {
        let dr = digit_run(s, p);
        if dr >= 2 {
            let d: usize = if dr > 3 {
                3
            } else {
                dr
            };
            proof {
                lemma_digit_run(s@, p as int);
            }
            let v = parse_digits(s, p, p + d);
            return Some(v);
        }
        p += 1;
    }
    None
}

pub open spec fn decimal_match_at(s: Seq<char>, p: int) -> bool {
    p < s.len() && is_digit(s[p])
}

pub open spec fn decimal_first(s: Seq<char>, p: int) -> Option<int>
    decreases s.len() - p,
{
    if p < 0 || p >= s.len() {
        None
    } else if decimal_match_at(s, p) {
        Some(p)
    } else {
        decimal_first(s, p + 1)
    }
}

/// Leftmost decimal number in `s`, as text.
pub open spec fn first_decimal_spec(s: Seq<char>) -> Option<Seq<char>> {
    match decimal_first(s, 0) {
        None => None,
        Some(p) => Some(s.subrange(p, decimal_end(s, p))),
    }
}

pub fn scan_first_decimal(s: &str) -> (r: Option<String>)
    ensures
        match r {
            None => first_decimal_spec(s@) is None,
            Some(v) => first_decimal_spec(s@) == Some(v@),
        },
{
    let n = s.unicode_len();
    let mut p: usize = 0;
    while p < n
        invariant
            0 <= p <= n,
            n == s@.len(),
            decimal_first(s@, 0) == decimal_first(s@, p as int),
        decreases n - p,
    {
        if digit_ch(s.get_char(p)) {
            return Some(take_decimal(s, p));
        }
        p += 1;
    }
    None
}

} // verus!
