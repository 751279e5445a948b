//! Character classes, runs, trimming and ordering over `Seq<char>`.
//!
//! Everything downstream (code recognition, text scans, genre sorting) is
//! specified over views of strings as character sequences; this module holds
//! the shared primitives.

use vstd::prelude::*;

verus! {

/// ASCII letter, either case.
pub open spec fn is_letter(c: char) -> bool {
    (97 <= c as u32 && c as u32 <= 122) || (65 <= c as u32 && c as u32 <= 90)
}

/// ASCII decimal digit.
pub open spec fn is_digit(c: char) -> bool {
    48 <= c as u32 && c as u32 <= 57
}

/// Whitespace: the Unicode `White_Space` characters, what `str::trim` and
/// the usual whitespace character class accept.
pub open spec fn is_space(c: char) -> bool {
    ||| (9 <= c as u32 && c as u32 <= 13)
    ||| c as u32 == 32
    ||| c as u32 == 0x85
    ||| c as u32 == 0xA0
    ||| c as u32 == 0x1680
    ||| (0x2000 <= c as u32 && c as u32 <= 0x200A)
    ||| c as u32 == 0x2028
    ||| c as u32 == 0x2029
    ||| c as u32 == 0x202F
    ||| c as u32 == 0x205F
    ||| c as u32 == 0x3000
}

/// Separator tolerated between the letter and digit part of a code.
pub open spec fn is_code_sep(c: char) -> bool {
    c == '-' || c == '_' || c == ' '
}

pub fn letter_ch(c: char) -> (r: bool)
    ensures
        r == is_letter(c),
{
    let u = c as u32;
    (97 <= u && u <= 122) || (65 <= u && u <= 90)
}

pub fn digit_ch(c: char) -> (r: bool)
    ensures
        r == is_digit(c),
{
    let u = c as u32;
    48 <= u && u <= 57
}

pub fn space_ch(c: char) -> (r: bool)
    ensures
        r == is_space(c),
{
    let u = c as u32;
    (9 <= u && u <= 13) || u == 32 || u == 0x85 || u == 0xA0 || u == 0x1680 || (0x2000 <= u && u
        <= 0x200A) || u == 0x2028 || u == 0x2029 || u == 0x202F || u == 0x205F || u == 0x3000
}

pub fn code_sep_ch(c: char) -> (r: bool)
    ensures
        r == is_code_sep(c),
{
    c == '-' || c == '_' || c == ' '
}

/// Upper-case image of one character; only ASCII letters are folded.
pub open spec fn upper_ch(c: char) -> char {
    if 97 <= c as u32 && c as u32 <= 122 {
        ((c as u32) - 32) as char
    } else {
        c
    }
}

pub fn upper_char(c: char) -> (r: char)
    ensures
        r == upper_ch(c),
{
    match c {
        'a' => 'A',
        'b' => 'B',
        'c' => 'C',
        'd' => 'D',
        'e' => 'E',
        'f' => 'F',
        'g' => 'G',
        'h' => 'H',
        'i' => 'I',
        'j' => 'J',
        'k' => 'K',
        'l' => 'L',
        'm' => 'M',
        'n' => 'N',
        'o' => 'O',
        'p' => 'P',
        'q' => 'Q',
        'r' => 'R',
        's' => 'S',
        't' => 'T',
        'u' => 'U',
        'v' => 'V',
        'w' => 'W',
        'x' => 'X',
        'y' => 'Y',
        'z' => 'Z',
        _ => c,
    }
}

/// Upper-case image of a character sequence.
pub open spec fn upper_seq(s: Seq<char>) -> Seq<char> {
    s.map_values(|c: char| upper_ch(c))
}

/// Relies on `String::push`: appends the given character to the end of the
/// string.
#[verifier::external_body]
pub fn push_char(s: &mut String, c: char)
    ensures
        final(s)@ == old(s)@.push(c),
{
    s.push(c);
}

pub fn upper_str(s: &str) -> (r: String)
    ensures
        r@ == upper_seq(s@),
{
    let n = s.unicode_len();
    let mut out = String::new();
    let mut i: usize = 0;
    while i < n
        invariant
            i <= n,
            n == s@.len(),
            out@ == upper_seq(s@).take(i as int),
        decreases n - i,
    {
        let c = s.get_char(i);
        push_char(&mut out, upper_char(c));
        proof {
            assert(out@ =~= upper_seq(s@).take(i + 1));
        }
        i += 1;
    }
    proof {
        assert(upper_seq(s@).take(n as int) =~= upper_seq(s@));
    }
    out
}

/// Length of the digit run starting at position `p`.
pub open spec fn digit_run_len(s: Seq<char>, p: int) -> int
    decreases s.len() - p,
{
    if p < 0 || p >= s.len() || !is_digit(s[p]) {
        0
    } else {
        1 + digit_run_len(s, p + 1)
    }
}

/// Length of the letter run starting at position `p`.
pub open spec fn letter_run_len(s: Seq<char>, p: int) -> int
    decreases s.len() - p,
{
    if p < 0 || p >= s.len() || !is_letter(s[p]) {
        0
    } else {
        1 + letter_run_len(s, p + 1)
    }
}

/// Length of the whitespace run starting at position `p`.
pub open spec fn space_run_len(s: Seq<char>, p: int) -> int
    decreases s.len() - p,
{
    if p < 0 || p >= s.len() || !is_space(s[p]) {
        0
    } else {
        1 + space_run_len(s, p + 1)
    }
}

pub proof fn lemma_digit_run(s: Seq<char>, p: int)
    requires
        0 <= p <= s.len(),
    ensures
        0 <= digit_run_len(s, p),
        p + digit_run_len(s, p) <= s.len(),
        forall|q: int| p <= q < p + digit_run_len(s, p) ==> is_digit(#[trigger] s[q]),
        p + digit_run_len(s, p) == s.len() || !is_digit(s[p + digit_run_len(s, p)]),
    decreases s.len() - p,
{
    if p < s.len() && is_digit(s[p]) {
        lemma_digit_run(s, p + 1);
    }
}

pub proof fn lemma_digit_run_is(s: Seq<char>, p: int, i: int)
    requires
        0 <= p <= i <= s.len(),
        forall|q: int| p <= q < i ==> is_digit(#[trigger] s[q]),
        i == s.len() || !is_digit(s[i]),
    ensures
        digit_run_len(s, p) == i - p,
    decreases i - p,
{
    if p < i {
        lemma_digit_run_is(s, p + 1, i);
    }
}

pub proof fn lemma_letter_run(s: Seq<char>, p: int)
    requires
        0 <= p <= s.len(),
    ensures
        0 <= letter_run_len(s, p),
        p + letter_run_len(s, p) <= s.len(),
        forall|q: int| p <= q < p + letter_run_len(s, p) ==> is_letter(#[trigger] s[q]),
        p + letter_run_len(s, p) == s.len() || !is_letter(s[p + letter_run_len(s, p)]),
    decreases s.len() - p,
{
    if p < s.len() && is_letter(s[p]) {
        lemma_letter_run(s, p + 1);
    }
}

pub proof fn lemma_letter_run_is(s: Seq<char>, p: int, i: int)
    requires
        0 <= p <= i <= s.len(),
        forall|q: int| p <= q < i ==> is_letter(#[trigger] s[q]),
        i == s.len() || !is_letter(s[i]),
    ensures
        letter_run_len(s, p) == i - p,
    decreases i - p,
{
    if p < i {
        lemma_letter_run_is(s, p + 1, i);
    }
}

pub proof fn lemma_digit_run_at_least(s: Seq<char>, p: int, d: int)
    requires
        0 <= p,
        0 <= d,
        p + d <= s.len(),
        forall|q: int| p <= q < p + d ==> is_digit(#[trigger] s[q]),
    ensures
        digit_run_len(s, p) >= d,
    decreases d,
{
    if d > 0 {
        assert(is_digit(s[p]));
        lemma_digit_run_at_least(s, p + 1, d - 1);
    } else {
        lemma_digit_run(s, p);
    }
}

pub proof fn lemma_letter_run_at_least(s: Seq<char>, p: int, d: int)
    requires
        0 <= p,
        0 <= d,
        p + d <= s.len(),
        forall|q: int| p <= q < p + d ==> is_letter(#[trigger] s[q]),
    ensures
        letter_run_len(s, p) >= d,
    decreases d,
{
    if d > 0 {
        assert(is_letter(s[p]));
        lemma_letter_run_at_least(s, p + 1, d - 1);
    } else {
        lemma_letter_run(s, p);
    }
}

pub proof fn lemma_space_run(s: Seq<char>, p: int)
    requires
        0 <= p <= s.len(),
    ensures
        0 <= space_run_len(s, p),
        p + space_run_len(s, p) <= s.len(),
        forall|q: int| p <= q < p + space_run_len(s, p) ==> is_space(#[trigger] s[q]),
        p + space_run_len(s, p) == s.len() || !is_space(s[p + space_run_len(s, p)]),
    decreases s.len() - p,
{
    if p < s.len() && is_space(s[p]) {
        lemma_space_run(s, p + 1);
    }
}

pub proof fn lemma_space_run_is(s: Seq<char>, p: int, i: int)
    requires
        0 <= p <= i <= s.len(),
        forall|q: int| p <= q < i ==> is_space(#[trigger] s[q]),
        i == s.len() || !is_space(s[i]),
    ensures
        space_run_len(s, p) == i - p,
    decreases i - p,
{
    if p < i {
        lemma_space_run_is(s, p + 1, i);
    }
}

pub fn digit_run(s: &str, p: usize) -> (n: usize)
    requires
        p <= s@.len(),
    ensures
        n == digit_run_len(s@, p as int),
        p + n <= s@.len(),
{
    let len = s.unicode_len();
    let mut i: usize = p;
    while i < len && digit_ch(s.get_char(i))
        invariant
            p <= i <= len,
            len == s@.len(),
            forall|q: int| p <= q < i ==> is_digit(#[trigger] s@[q]),
        decreases len - i,
    {
        i += 1;
    }
    proof {
        lemma_digit_run_is(s@, p as int, i as int);
    }
    i - p
}

pub fn letter_run(s: &str, p: usize) -> (n: usize)
    requires
        p <= s@.len(),
    ensures
        n == letter_run_len(s@, p as int),
        p + n <= s@.len(),
{
    let len = s.unicode_len();
    let mut i: usize = p;
    while i < len && letter_ch(s.get_char(i))
        invariant
            p <= i <= len,
            len == s@.len(),
            forall|q: int| p <= q < i ==> is_letter(#[trigger] s@[q]),
        decreases len - i,
    {
        i += 1;
    }
    proof {
        lemma_letter_run_is(s@, p as int, i as int);
    }
    i - p
}

pub fn space_run(s: &str, p: usize) -> (n: usize)
    requires
        p <= s@.len(),
    ensures
        n == space_run_len(s@, p as int),
        p + n <= s@.len(),
{
    let len = s.unicode_len();
    let mut i: usize = p;
    while i < len && space_ch(s.get_char(i))
        invariant
            p <= i <= len,
            len == s@.len(),
            forall|q: int| p <= q < i ==> is_space(#[trigger] s@[q]),
        decreases len - i,
    {
        i += 1;
    }
    proof {
        lemma_space_run_is(s@, p as int, i as int);
    }
    i - p
}

/// Length of the whitespace run ending the sequence.
pub open spec fn space_suffix_len(s: Seq<char>) -> int
    decreases s.len(),
{
    if s.len() == 0 || !is_space(s.last()) {
        0
    } else {
        1 + space_suffix_len(s.drop_last())
    }
}

pub proof fn lemma_space_suffix_is(s: Seq<char>, j: int)
    requires
        0 <= j <= s.len(),
        forall|q: int| j <= q < s.len() ==> is_space(#[trigger] s[q]),
        j == 0 || !is_space(s[j - 1]),
    ensures
        space_suffix_len(s) == s.len() - j,
    decreases s.len() - j,
{
    if j < s.len() {
        assert(s.drop_last() =~= s.take(s.len() - 1));
        lemma_space_suffix_is(s.drop_last(), j);
    }
}

/// The sequence with leading and trailing whitespace removed.
pub open spec fn trim_seq(s: Seq<char>) -> Seq<char> {
    let a = space_run_len(s, 0);
    if a == s.len() {
        Seq::<char>::empty()
    } else {
        s.subrange(a, s.len() - space_suffix_len(s))
    }
}

/// Drops leading and trailing whitespace, by character positions.
pub fn trim_str(s: &str) -> (r: String)
    ensures
        r@ == trim_seq(s@),
{
    let len = s.unicode_len();
    let a = space_run(s, 0);
    if a == len {
        proof {
            assert(trim_seq(s@) =~= Seq::<char>::empty());
        }
        return String::new();
    }
    proof {
        lemma_space_run(s@, 0);
    }
    let mut j: usize = len;
    while j > a && space_ch(s.get_char(j - 1))
        invariant
            a <= j <= len,
            a < len,
            len == s@.len(),
            a == space_run_len(s@, 0),
            !is_space(s@[a as int]),
            forall|q: int| j <= q < len ==> is_space(#[trigger] s@[q]),
        decreases j,
    {
        j -= 1;
    }
    proof {
        assert(!is_space(s@[j - 1])) by {
            if j == a {
                assert(false);
            }
        }
        lemma_space_suffix_is(s@, j as int);
    }
    let r = s.substring_char(a, j);
    proof {
        assert(r@ =~= trim_seq(s@));
    }
    String::from_str(r)
}

/// Numeric value of a digit sequence read in base ten.
pub open spec fn digits_val(s: Seq<char>) -> int
    decreases s.len(),
{
    if s.len() == 0 {
        0
    } else {
        10 * digits_val(s.drop_last()) + (s.last() as u32 - 48)
    }
}

/// Powers of ten.
pub open spec fn pow10(n: int) -> int
    decreases n,
{
    if n <= 0 {
        1
    } else {
        10 * pow10(n - 1)
    }
}

pub proof fn lemma_digits_val_bounds(s: Seq<char>)
    requires
        forall|q: int| 0 <= q < s.len() ==> is_digit(#[trigger] s[q]),
    ensures
        0 <= digits_val(s),
        digits_val(s) < pow10(s.len() as int),
    decreases s.len(),
{
    if s.len() > 0 {
        assert(forall|q: int| 0 <= q < s.drop_last().len() ==> is_digit(
            #[trigger] s.drop_last()[q],
        ));
        assert(is_digit(s[s.len() - 1]));
        lemma_digits_val_bounds(s.drop_last());
    }
}

pub proof fn lemma_digits_val_step(s: Seq<char>, from: int, k: int)
    requires
        0 <= from,
        from + k < s.len(),
        0 <= k,
    ensures
        digits_val(s.subrange(from, from + k + 1)) == 10 * digits_val(s.subrange(from, from + k))
            + (s[from + k] as u32 - 48),
{
    assert(s.subrange(from, from + k + 1).drop_last() =~= s.subrange(from, from + k));
}

/// Reads the digits of `s` in `[from, to)` as a base-ten number.
pub fn parse_digits(s: &str, from: usize, to: usize) -> (v: u32)
    requires
        from <= to <= s@.len(),
        to - from <= 9,
        forall|q: int| from <= q < to ==> is_digit(#[trigger] s@[q]),
    ensures
        v == digits_val(s@.subrange(from as int, to as int)),
{
    let mut acc: u32 = 0;
    let mut i: usize = from;
    proof {
        assert(s@.subrange(from as int, from as int) =~= Seq::<char>::empty());
    }
    while i < to
        invariant
            from <= i <= to <= s@.len(),
            to - from <= 9,
            forall|q: int| from <= q < to ==> is_digit(#[trigger] s@[q]),
            acc == digits_val(s@.subrange(from as int, i as int)),
        decreases to - i,
    {
        let c = s.get_char(i);
        proof {
            assert(is_digit(s@[i as int]));
            lemma_digits_val_bounds(s@.subrange(from as int, i as int));
            lemma_digits_val_step(s@, from as int, i - from);
            reveal_with_fuel(pow10, 10);
            assert(pow10(i - from) <= pow10(8)) by {
                lemma_pow10_mono(i - from, 8);
            }
        }
        acc = acc * 10 + (c as u32 - 48);
        i += 1;
    }
    acc
}

pub proof fn lemma_pow10_mono(a: int, b: int)
    requires
        a <= b,
    ensures
        pow10(a) <= pow10(b),
        pow10(a) >= 1,
    decreases b - a,
{
    if a < b {
        lemma_pow10_mono(a, b - 1);
        lemma_pow10_pos(b - 1);
    } else {
        lemma_pow10_pos(a);
    }
}

pub proof fn lemma_pow10_pos(a: int)
    ensures
        pow10(a) >= 1,
    decreases a,
{
    if a > 0 {
        lemma_pow10_pos(a - 1);
    }
}

/// Parses a whole digit string as `u32`, as `str::parse::<u32>` does on
/// unsigned decimal input: any non-digit character or a value above
/// `u32::MAX` yields nothing.
pub open spec fn parse_u32_spec(s: Seq<char>) -> Option<u32> {
    if s.len() == 0 || exists|q: int| 0 <= q < s.len() && !is_digit(s[q]) {
        None
    } else if digits_val(s) > u32::MAX {
        None
    } else {
        Some(digits_val(s) as u32)
    }
}

pub proof fn lemma_digits_val_mono(s: Seq<char>, i: int)
    requires
        0 <= i <= s.len(),
        forall|q: int| 0 <= q < s.len() ==> is_digit(#[trigger] s[q]),
    ensures
        digits_val(s.take(i)) <= digits_val(s),
    decreases s.len() - i,
{
    if i < s.len() {
        lemma_digits_val_bounds(s.take(i));
        assert(s.take(i + 1).drop_last() =~= s.take(i));
        assert(digits_val(s.take(i + 1)) == 10 * digits_val(s.take(i)) + (s[i] as u32 - 48));
        lemma_digits_val_mono(s, i + 1);
    } else {
        assert(s.take(i) =~= s);
    }
}

pub fn parse_u32_str(s: &str) -> (r: Option<u32>)
    ensures
        r == parse_u32_spec(s@),
{
    let len = s.unicode_len();
    if len == 0 {
        return None;
    }
    let mut acc: u64 = 0;
    let mut i: usize = 0;
    proof {
        assert(s@.take(0) =~= Seq::<char>::empty());
    }
    while i < len
        invariant
            0 <= i <= len,
            len == s@.len(),
            forall|q: int| 0 <= q < i ==> is_digit(#[trigger] s@[q]),
            acc == digits_val(s@.take(i as int)),
            acc <= u32::MAX,
        decreases len - i,
    {
        let c = s.get_char(i);
        if !digit_ch(c) {
            return None;
        }
        proof {
            assert(s@.take(i + 1).drop_last() =~= s@.take(i as int));
        }
        acc = acc * 10 + ((c as u32 - 48) as u64);
        i += 1;
        if acc > u32::MAX as u64 {
            proof {
                assert(s@.take(i as int) =~= s@.take(i as int));
                if forall|q: int| 0 <= q < s@.len() ==> is_digit(#[trigger] s@[q]) {
                    lemma_digits_val_mono(s@, i as int);
                }
            }
            return None;
        }
    }
    proof {
        assert(s@.take(len as int) =~= s@);
    }
    Some(acc as u32)
}

/// UTF-8 byte length of one character.
pub open spec fn ch_utf8_len(c: char) -> int {
    if (c as u32) < 0x80 {
        1
    } else if (c as u32) < 0x800 {
        2
    } else if (c as u32) < 0x10000 {
        3
    } else {
        4
    }
}

/// UTF-8 byte length of a character sequence.
pub open spec fn utf8_len(s: Seq<char>) -> int
    decreases s.len(),
{
    if s.len() == 0 {
        0
    } else {
        utf8_len(s.drop_last()) + ch_utf8_len(s.last())
    }
}

pub proof fn lemma_utf8_len_mono(s: Seq<char>, i: int)
    requires
        0 <= i <= s.len(),
    ensures
        utf8_len(s.take(i)) <= utf8_len(s),
    decreases s.len() - i,
{
    if i < s.len() {
        assert(s.take(i + 1).drop_last() =~= s.take(i));
        assert(utf8_len(s.take(i + 1)) == utf8_len(s.take(i)) + ch_utf8_len(s[i]));
        lemma_utf8_len_mono(s, i + 1);
    } else {
        assert(s.take(i) =~= s);
    }
}

/// Whether the UTF-8 encoding of `s` is longer than `limit` bytes.
pub fn utf8_longer_than(s: &str, limit: usize) -> (r: bool)
    ensures
        r == (utf8_len(s@) > limit),
{
    let len = s.unicode_len();
    let mut acc: usize = 0;
    let mut i: usize = 0;
    proof {
        assert(s@.take(0) =~= Seq::<char>::empty());
    }
    while i < len
        invariant
            0 <= i <= len,
            len == s@.len(),
            acc == utf8_len(s@.take(i as int)),
            acc <= limit,
        decreases len - i,
    {
        let c = s.get_char(i);
        let u = c as u32;
        let cl: usize = if u < 0x80 {
            1
        } else if u < 0x800 {
            2
        } else if u < 0x10000 {
            3
        } else {
            4
        };
        proof {
            assert(s@.take(i + 1).drop_last() =~= s@.take(i as int));
        }
        if cl > limit - acc {
            proof {
                lemma_utf8_len_mono(s@, i + 1);
            }
            return true;
        }
        acc = acc + cl;
        i += 1;
    }
    proof {
        assert(s@.take(len as int) =~= s@);
    }
    false
}

/// Strict lexicographic order on character sequences by scalar value; this
/// is the order `str` comparison uses, since UTF-8 preserves scalar order.
pub open spec fn lex_lt(a: Seq<char>, b: Seq<char>) -> bool
    decreases a.len(),
{
    if b.len() == 0 {
        false
    } else if a.len() == 0 {
        true
    } else if a[0] != b[0] {
        (a[0] as u32) < (b[0] as u32)
    } else {
        lex_lt(a.drop_first(), b.drop_first())
    }
}

/// A character is determined by its scalar value.
pub proof fn lemma_char_scalar_inj(x: char, y: char)
    requires
        x as u32 == y as u32,
    ensures
        x == y,
{
}

pub proof fn lemma_lex_trichotomy(a: Seq<char>, b: Seq<char>)
    ensures
        a =~= b || lex_lt(a, b) || lex_lt(b, a),
        lex_lt(a, b) ==> !(a =~= b),
        !(lex_lt(a, b) && lex_lt(b, a)),
    decreases a.len() + b.len(),
{
    if a.len() == 0 && b.len() == 0 {
        assert(a =~= b);
    } else if a.len() > 0 && b.len() > 0 && a[0] != b[0] {
        if a[0] as u32 == b[0] as u32 {
            lemma_char_scalar_inj(a[0], b[0]);
        }
    } else if a.len() > 0 && b.len() > 0 && a[0] == b[0] {
        lemma_lex_trichotomy(a.drop_first(), b.drop_first());
        if a.drop_first() =~= b.drop_first() {
            assert forall|i: int| 0 <= i < a.len() implies a[i] == b[i] by {
                if i > 0 {
                    assert(a.drop_first()[i - 1] == b.drop_first()[i - 1]);
                }
            }
            assert(a =~= b);
        }
        if a =~= b {
            assert(a.drop_first() =~= b.drop_first());
        }
    }
}

pub proof fn lemma_lex_trans(a: Seq<char>, b: Seq<char>, c: Seq<char>)
    requires
        lex_lt(a, b),
        lex_lt(b, c),
    ensures
        lex_lt(a, c),
    decreases a.len() + b.len() + c.len(),
{
    if a.len() > 0 && b.len() > 0 && c.len() > 0 {
        if a[0] == b[0] && b[0] == c[0] {
            lemma_lex_trans(a.drop_first(), b.drop_first(), c.drop_first());
        }
    }
}

pub proof fn lemma_lex_skip(a: Seq<char>, b: Seq<char>, i: int)
    requires
        0 <= i <= a.len(),
        i <= b.len(),
        forall|q: int| 0 <= q < i ==> a[q] == b[q],
    ensures
        lex_lt(a, b) == lex_lt(a.skip(i), b.skip(i)),
    decreases i,
{
    if i > 0 {
        assert(a.len() > 0 && b.len() > 0 && a[0] == b[0]);
        lemma_lex_skip(a.drop_first(), b.drop_first(), i - 1);
        assert(a.drop_first().skip(i - 1) =~= a.skip(i));
        assert(b.drop_first().skip(i - 1) =~= b.skip(i));
    } else {
        assert(a.skip(0) =~= a);
        assert(b.skip(0) =~= b);
    }
}

/// Strict lexicographic comparison of two strings.
pub fn str_lt(a: &str, b: &str) -> (r: bool)
    ensures
        r == lex_lt(a@, b@),
{
    let alen = a.unicode_len();
    let blen = b.unicode_len();
    let mut i: usize = 0;
    while i < alen && i < blen
        invariant
            0 <= i <= alen,
            i <= blen,
            alen == a@.len(),
            blen == b@.len(),
            forall|q: int| 0 <= q < i ==> a@[q] == b@[q],
        decreases alen - i,
    {
        let ca = a.get_char(i);
        let cb = b.get_char(i);
        if ca != cb {
            proof {
                lemma_lex_skip(a@, b@, i as int);
                assert(a@.skip(i as int)[0] == a@[i as int]);
                assert(b@.skip(i as int)[0] == b@[i as int]);
            }
            return (ca as u32) < (cb as u32);
        }
        i += 1;
    }
    proof {
        lemma_lex_skip(a@, b@, i as int);
    }
    alen < blen
}

/// String equality over views.
pub fn str_eq(a: &str, b: &str) -> (r: bool)
    ensures
        r == (a@ =~= b@),
{
    let alen = a.unicode_len();
    let blen = b.unicode_len();
    if alen != blen {
        return false;
    }
    let mut i: usize = 0;
    while i < alen
        invariant
            0 <= i <= alen,
            alen == a@.len(),
            alen == b@.len(),
            forall|q: int| 0 <= q < i ==> a@[q] == b@[q],
        decreases alen - i,
    {
        if a.get_char(i) != b.get_char(i) {
            return false;
        }
        i += 1;
    }
    true
}

/// `needle` occurs in `hay` starting at position `p`.
pub open spec fn occurs_at(hay: Seq<char>, needle: Seq<char>, p: int) -> bool {
    0 <= p && p + needle.len() <= hay.len() && hay.subrange(p, p + needle.len()) =~= needle
}

/// `needle` occurs somewhere in `hay`.
pub open spec fn contains_seq(hay: Seq<char>, needle: Seq<char>) -> bool {
    exists|p: int| occurs_at(hay, needle, p)
}

/// Whether `needle` occurs in `hay` at position `p`; `p` may be anywhere.
pub fn occurs_here(hay: &str, needle: &str, p: usize) -> (r: bool)
    ensures
        r == occurs_at(hay@, needle@, p as int),
{
    let hlen = hay.unicode_len();
    let nlen = needle.unicode_len();
    if p > hlen || nlen > hlen - p {
        return false;
    }
    occurs_at_check(hay, needle, p)
}

fn occurs_at_check(hay: &str, needle: &str, p: usize) -> (r: bool)
    requires
        p + needle@.len() <= hay@.len(),
    ensures
        r == occurs_at(hay@, needle@, p as int),
{
    let hlen = hay.unicode_len();
    let nlen = needle.unicode_len();
    let mut i: usize = 0;
    while i < nlen
        invariant
            0 <= i <= nlen,
            nlen == needle@.len(),
            hlen == hay@.len(),
            p + nlen <= hlen,
            forall|q: int| 0 <= q < i ==> hay@[p + q] == needle@[q],
        decreases nlen - i,
    {
        if hay.get_char(p + i) != needle.get_char(i) {
            proof {
                assert(hay@.subrange(p as int, p + nlen)[i as int] == hay@[p + i]);
            }
            return false;
        }
        i += 1;
    }
    proof {
        assert(hay@.subrange(p as int, p + nlen) =~= needle@);
    }
    true
}

/// Substring search: whether `needle` occurs anywhere in `hay`.
pub fn contains_str(hay: &str, needle: &str) -> (r: bool)
    ensures
        r == contains_seq(hay@, needle@),
{
    let hlen = hay.unicode_len();
    let nlen = needle.unicode_len();
    if nlen > hlen {
        proof {
            assert(forall|p: int| !occurs_at(hay@, needle@, p));
        }
        return false;
    }
    let mut p: usize = 0;
    while p <= hlen - nlen
        invariant
            0 <= p,
            nlen <= hlen,
            hlen == hay@.len(),
            nlen == needle@.len(),
            p <= hlen - nlen + 1,
            forall|q: int| 0 <= q < p ==> !occurs_at(hay@, needle@, q),
        decreases hlen + 1 - nlen - p,
    {
        if occurs_at_check(hay, needle, p) {
            return true;
        }
        p += 1;
    }
    proof {
        assert(forall|q: int| occurs_at(hay@, needle@, q) ==> 0 <= q <= hlen - nlen);
    }
    false
}

} // verus!

