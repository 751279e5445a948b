//! Field extraction over fetched documents.
//!
//! An extractor receives one document, already reduced by the markup
//! parser to plain values: the texts of selected nodes, attribute values,
//! label/value rows and the full visible text.  Extraction is layered:
//! a structural pass, a keyed-row pass over label/value rows, and a
//! free-text fallback scan, with first-match-wins per field — a later pass
//! only fills a field the earlier passes left empty.

use vstd::prelude::*;
use crate::chars::{
    is_digit, digit_ch, trim_seq, trim_str, upper_seq, upper_str, utf8_len, utf8_longer_than,
    lex_lt, str_lt, str_eq, contains_seq, contains_str, lemma_lex_trichotomy, lemma_lex_trans,
    parse_u32_spec, parse_u32_str,
};
use crate::code::{
    looks_like_code_spec, looks_like_code, extract_code_spec, extract_code_from_title,
    ext_code_at, canonical_code, lemma_looks_implies_ext_match, lemma_ext_code_at_canonical,
    lemma_extracted_code_canonical,
};
use crate::scan::{
    duration_en_spec, duration_any_spec, scan_duration_en, scan_duration_any, rating_en_spec,
    rating_alt_spec, scan_rating_en, scan_rating_alt, date_spec, scan_date, magnets_spec,
    scan_magnets, first_number_spec, scan_first_number, first_decimal_spec, scan_first_decimal,
};
use crate::types::{
    AvItem, MagnetInfo, AvDetail, urls_of, texts_distinct, texts_sorted, lemma_urls_of_index,
};

verus! {

// ---------------------------------------------------------------------------
// List helpers shared by the extractors.
// ---------------------------------------------------------------------------

/// The texts of `ss`, each trimmed, empty ones dropped, order kept.
pub open spec fn trim_filter(ss: Seq<Seq<char>>) -> Seq<Seq<char>>
    decreases ss.len(),
{
    if ss.len() == 0 {
        Seq::empty()
    } else {
        let pre = trim_filter(ss.drop_last());
        if trim_seq(ss.last()).len() > 0 {
            pre.push(trim_seq(ss.last()))
        } else {
            pre
        }
    }
}

pub fn trim_nonempty(v: &Vec<String>) -> (r: Vec<String>)
    ensures
        r.deep_view() == trim_filter(v.deep_view()),
{
    let mut out: Vec<String> = Vec::new();
    let mut i: usize = 0;
    proof {
        assert(v.deep_view().take(0) =~= Seq::<Seq<char>>::empty());
    }
    while i < v.len()
        invariant
            0 <= i <= v.len(),
            out.deep_view() =~= trim_filter(v.deep_view().take(i as int)),
        decreases v.len() - i,
    {
        let ghost prev = out.deep_view();
        let t = trim_str(v[i].as_str());
        let nonempty = t.as_str().unicode_len() > 0;
        if nonempty {
            out.push(t);
        }
        proof {
            assert(v.deep_view().take(i + 1).drop_last() =~= v.deep_view().take(i as int));
            assert(v.deep_view().take(i + 1).last() == v.deep_view()[i as int]);
            if nonempty {
                assert(out.deep_view() =~= prev.push(trim_seq(v.deep_view()[i as int])));
            }
        }
        i += 1;
    }
    proof {
        assert(v.deep_view().take(v.len() as int) =~= v.deep_view());
    }
    out
}

/// `ss` with every repeated text dropped; the first occurrence stays, in
/// place.
pub open spec fn dedup_texts_spec(ss: Seq<Seq<char>>) -> Seq<Seq<char>>
    decreases ss.len(),
{
    if ss.len() == 0 {
        Seq::empty()
    } else {
        let pre = dedup_texts_spec(ss.drop_last());
        if pre.contains(ss.last()) {
            pre
        } else {
            pre.push(ss.last())
        }
    }
}

pub proof fn lemma_dedup_texts(ss: Seq<Seq<char>>)
    ensures
        texts_distinct(dedup_texts_spec(ss)),
        forall|x: Seq<char>| #[trigger]
            dedup_texts_spec(ss).contains(x) == ss.contains(x),
    decreases ss.len(),
{
    if ss.len() > 0 {
        lemma_dedup_texts(ss.drop_last());
        let pre = dedup_texts_spec(ss.drop_last());
        assert forall|x: Seq<char>| #[trigger]
            dedup_texts_spec(ss).contains(x) == ss.contains(x) by {
            if dedup_texts_spec(ss).contains(x) {
                if pre.contains(x) {
                    assert(ss.drop_last().contains(x));
                    let i = choose|i: int|
                        0 <= i < ss.drop_last().len() && ss.drop_last()[i] == x;
                    assert(ss[i] == x);
                } else {
                    assert(x == ss.last());
                    assert(ss[ss.len() - 1] == x);
                }
            }
            if ss.contains(x) {
                let i = choose|i: int| 0 <= i < ss.len() && ss[i] == x;
                if i < ss.len() - 1 {
                    assert(ss.drop_last()[i] == x);
                    assert(pre.contains(x));
                    if !pre.contains(ss.last()) {
                        assert(dedup_texts_spec(ss)[choose|j: int|
                            0 <= j < pre.len() && pre[j] == x] == x);
                    }
                } else {
                    if pre.contains(ss.last()) {
                        assert(dedup_texts_spec(ss).contains(x));
                    } else {
                        assert(dedup_texts_spec(ss)[pre.len() as int] == x);
                    }
                }
            }
        }
        if !pre.contains(ss.last()) {
            assert forall|i: int, j: int|
                0 <= i < j < dedup_texts_spec(ss).len() implies dedup_texts_spec(ss)[i]
                != dedup_texts_spec(ss)[j] by {
                if j == dedup_texts_spec(ss).len() - 1 {
                    assert(pre[i] == dedup_texts_spec(ss)[i]);
                    if pre[i] == ss.last() {
                        assert(pre.contains(ss.last()));
                    }
                }
            }
        }
    }
}

/// Whether a text equal to `s` stands in `v`.
pub fn contains_text(v: &Vec<String>, s: &str) -> (r: bool)
    ensures
        r == v.deep_view().contains(s@),
{
    let mut i: usize = 0;
    while i < v.len()
        invariant
            0 <= i <= v.len(),
            forall|q: int| 0 <= q < i ==> v.deep_view()[q] != s@,
        decreases v.len() - i,
    {
        if str_eq(v[i].as_str(), s) {
            assert(v.deep_view()[i as int] == s@);
            return true;
        }
        i += 1;
    }
    assert(!v.deep_view().contains(s@));
    false
}

pub fn dedup_texts(v: Vec<String>) -> (r: Vec<String>)
    ensures
        r.deep_view() == dedup_texts_spec(v.deep_view()),
{
    let mut out: Vec<String> = Vec::new();
    let mut i: usize = 0;
    proof {
        assert(v.deep_view().take(0) =~= Seq::<Seq<char>>::empty());
    }
    while i < v.len()
        invariant
            0 <= i <= v.len(),
            out.deep_view() =~= dedup_texts_spec(v.deep_view().take(i as int)),
        decreases v.len() - i,
    {
        let ghost prev = out.deep_view();
        let present = contains_text(&out, v[i].as_str());
        if !present {
            let x = v[i].clone();
            assert(x@ == v.deep_view()[i as int]);
            out.push(x);
        }
        proof {
            assert(v.deep_view().take(i + 1).drop_last() =~= v.deep_view().take(i as int));
            assert(v.deep_view().take(i + 1).last() == v.deep_view()[i as int]);
            if !present {
                assert(out.deep_view() =~= prev.push(v.deep_view()[i as int]));
            }
        }
        i += 1;
    }
    proof {
        assert(v.deep_view().take(v.len() as int) =~= v.deep_view());
    }
    out
}

// ---------------------------------------------------------------------------
// Sorted, duplicate-free accumulation for genre tags.
// ---------------------------------------------------------------------------

fn insert_sorted_unique(out: &mut Vec<String>, s: String)
    requires
        texts_sorted(old(out).deep_view()),
    ensures
        texts_sorted(final(out).deep_view()),
        forall|x: Seq<char>| #[trigger]
            final(out).deep_view().contains(x) == (old(out).deep_view().contains(x) || x == s@),
{
    let mut j: usize = 0;
    while j < out.len() && str_lt(out[j].as_str(), s.as_str())
        invariant
            0 <= j <= out.len(),
            texts_sorted(out.deep_view()),
            forall|q: int| 0 <= q < j ==> lex_lt(#[trigger] out.deep_view()[q], s@),
        decreases out.len() - j,
    {
        j += 1;
    }
    if j < out.len() && str_eq(out[j].as_str(), s.as_str()) {
        proof {
            assert(out.deep_view()[j as int] == s@);
            assert(out.deep_view().contains(s@));
        }
        return ;
    }
    let ghost prev = out.deep_view();
    let ghost jj = j as int;
    proof {
        if jj < prev.len() {
            lemma_lex_trichotomy(prev[jj], s@);
        }
    }
    out.insert(j, s);
    proof {
        assert(out.deep_view() =~= prev.insert(jj, s@));
        assert forall|a: int, b: int|
            0 <= a < b < out.deep_view().len() implies lex_lt(
            out.deep_view()[a],
            out.deep_view()[b],
        ) by {
            let dv = out.deep_view();
            if a < jj && b == jj {
            } else if a == jj && b > jj {
                assert(dv[b] == prev[b - 1]);
                if jj < prev.len() {
                    if b - 1 > jj {
                        lemma_lex_trans(s@, prev[jj], prev[b - 1]);
                    }
                }
            } else if a < jj && b > jj {
                assert(dv[a] == prev[a]);
                assert(dv[b] == prev[b - 1]);
                if b - 1 > a {
                } else {
                }
            } else if a > jj && b > jj {
                assert(dv[a] == prev[a - 1]);
                assert(dv[b] == prev[b - 1]);
            } else if a < jj && b < jj {
                assert(dv[a] == prev[a]);
                assert(dv[b] == prev[b]);
            }
        }
        assert forall|x: Seq<char>| #[trigger]
            out.deep_view().contains(x) == (prev.contains(x) || x == s@) by {
            let dv = out.deep_view();
            if dv.contains(x) {
                let i = choose|i: int| 0 <= i < dv.len() && dv[i] == x;
                if i < jj {
                    assert(prev[i] == x);
                } else if i == jj {
                } else {
                    assert(prev[i - 1] == x);
                }
            }
            if prev.contains(x) {
                let i = choose|i: int| 0 <= i < prev.len() && prev[i] == x;
                if i < jj {
                    assert(dv[i] == x);
                } else {
                    assert(dv[i + 1] == x);
                }
            }
            if x == s@ {
                assert(dv[jj] == x);
            }
        }
    }
}

/// The set of texts a genre accumulation holds: the trimmed, non-empty
/// tag texts.
pub open spec fn tag_set(tags: Seq<Seq<char>>) -> Seq<Seq<char>> {
    trim_filter(tags)
}

/// Trims the tag texts, drops empty ones, sorts ascending, removes
/// duplicates.
pub fn normalize_tags(tags: &Vec<String>) -> (r: Vec<String>)
    ensures
        texts_sorted(r.deep_view()),
        texts_distinct(r.deep_view()),
        forall|x: Seq<char>| #[trigger]
            r.deep_view().contains(x) == tag_set(tags.deep_view()).contains(x),
{
    let base = trim_nonempty(tags);
    let mut out: Vec<String> = Vec::new();
    let mut i: usize = 0;
    while i < base.len()
        invariant
            0 <= i <= base.len(),
            texts_sorted(out.deep_view()),
            forall|x: Seq<char>| #[trigger]
                out.deep_view().contains(x) == base.deep_view().take(i as int).contains(x),
        decreases base.len() - i,
    {
        let ghost prevset = out.deep_view();
        let s = base[i].clone();
        assert(s@ == base.deep_view()[i as int]);
        insert_sorted_unique(&mut out, s);
        proof {
            assert forall|x: Seq<char>| #[trigger]
                out.deep_view().contains(x) == base.deep_view().take(i + 1).contains(x) by {
                let pre = base.deep_view().take(i as int);
                let cur = base.deep_view().take(i + 1);
                if out.deep_view().contains(x) {
                    if prevset.contains(x) {
                        let q = choose|q: int| 0 <= q < pre.len() && pre[q] == x;
                        assert(cur[q] == x);
                    } else {
                        assert(cur[i as int] == x);
                    }
                }
                if cur.contains(x) {
                    let q = choose|q: int| 0 <= q < cur.len() && cur[q] == x;
                    if q < i {
                        assert(pre[q] == x);
                    }
                }
            }
        }
        i += 1;
    }
    proof {
        assert(base.deep_view().take(base.len() as int) =~= base.deep_view());
        lemma_sorted_distinct(out.deep_view());
    }
    out
}

/// A strictly ascending text sequence holds no duplicates.
pub proof fn lemma_sorted_distinct(ss: Seq<Seq<char>>)
    requires
        texts_sorted(ss),
    ensures
        texts_distinct(ss),
{
    assert forall|i: int, j: int| 0 <= i < j < ss.len() implies ss[i] != ss[j] by {
        lemma_lex_trichotomy(ss[i], ss[j]);
    }
}

// ---------------------------------------------------------------------------
// Single-field picks.
// ---------------------------------------------------------------------------

/// The first of `ss`, untouched.
pub open spec fn first_text_spec(ss: Seq<Seq<char>>) -> Option<Seq<char>> {
    if ss.len() == 0 {
        None
    } else {
        Some(ss[0])
    }
}

pub fn first_text(v: &Vec<String>) -> (r: Option<String>)
    ensures
        match r {
            None => first_text_spec(v.deep_view()) is None,
            Some(t) => first_text_spec(v.deep_view()) == Some(t@),
        },
{
    if v.len() == 0 {
        None
    } else {
        Some(v[0].clone())
    }
}

/// The first of `ss` trimmed, unless that leaves nothing.
pub open spec fn first_trimmed_spec(ss: Seq<Seq<char>>) -> Option<Seq<char>> {
    if ss.len() == 0 {
        None
    } else if trim_seq(ss[0]).len() > 0 {
        Some(trim_seq(ss[0]))
    } else {
        None
    }
}

pub fn first_trimmed(v: &Vec<String>) -> (r: Option<String>)
    ensures
        match r {
            None => first_trimmed_spec(v.deep_view()) is None,
            Some(t) => first_trimmed_spec(v.deep_view()) == Some(t@),
        },
{
    if v.len() == 0 {
        return None;
    }
    let t = trim_str(v[0].as_str());
    if t.as_str().unicode_len() > 0 {
        Some(t)
    } else {
        None
    }
}

fn clone_texts(v: &Vec<String>) -> (r: Vec<String>)
    ensures
        r.deep_view() == v.deep_view(),
{
    let mut out: Vec<String> = Vec::new();
    let mut i: usize = 0;
    while i < v.len()
        invariant
            0 <= i <= v.len(),
            out.deep_view() =~= v.deep_view().take(i as int),
        decreases v.len() - i,
    {
        let ghost prev = out.deep_view();
        out.push(v[i].clone());
        proof {
            assert(out.deep_view() =~= prev.push(v.deep_view()[i as int]));
            assert(out.deep_view() =~= v.deep_view().take(i + 1));
        }
        i += 1;
    }
    proof {
        assert(v.deep_view().take(v.len() as int) =~= v.deep_view());
    }
    out
}

/// The canonical code read off the first code-shaped metadata value;
/// empty when none is.  Only the code itself is taken, not whatever
/// trails it in the value.
pub open spec fn pick_code_from(ms: Seq<Seq<char>>, i: int) -> Seq<char>
    decreases ms.len() - i,
{
    if i < 0 || i >= ms.len() {
        Seq::empty()
    } else if looks_like_code_spec(trim_seq(ms[i])) {
        ext_code_at(trim_seq(ms[i]), 0)
    } else {
        pick_code_from(ms, i + 1)
    }
}

/// What the code pick yields is empty or a canonical code.
pub proof fn lemma_pick_code_canonical(ms: Seq<Seq<char>>, i: int)
    ensures
        pick_code_from(ms, i).len() == 0 || canonical_code(pick_code_from(ms, i)),
    decreases ms.len() - i,
{
    if 0 <= i && i < ms.len() {
        if looks_like_code_spec(trim_seq(ms[i])) {
            lemma_looks_implies_ext_match(trim_seq(ms[i]));
            lemma_ext_code_at_canonical(trim_seq(ms[i]), 0);
        } else {
            lemma_pick_code_canonical(ms, i + 1);
        }
    }
}

pub open spec fn pick_code_spec(ms: Seq<Seq<char>>) -> Seq<char> {
    pick_code_from(ms, 0)
}

pub fn pick_code(meta: &Vec<String>) -> (r: String)
    ensures
        r@ == pick_code_spec(meta.deep_view()),
{
    let mut i: usize = 0;
    while i < meta.len()
        invariant
            0 <= i <= meta.len(),
            pick_code_spec(meta.deep_view()) == pick_code_from(meta.deep_view(), i as int),
        decreases meta.len() - i,
    {
        let t = trim_str(meta[i].as_str());
        if looks_like_code(t.as_str()) {
            proof {
                lemma_looks_implies_ext_match(t@);
            }
            let c = extract_code_from_title(t.as_str());
            match c {
                Some(code) => {
                    return code;
                },
                None => {
                    proof {
                        assert(false);
                    }
                },
            }
        }
        i += 1;
    }
    String::new()
}

/// An ISO-date shaped text, `YYYY-MM-DD`: four digits, a hyphen, two
/// digits, a hyphen, two digits, and nothing else.
pub open spec fn date_shaped(t: Seq<char>) -> bool {
    &&& t.len() == 10
    &&& is_digit(t[0])
    &&& is_digit(t[1])
    &&& is_digit(t[2])
    &&& is_digit(t[3])
    &&& t[4] == '-'
    &&& is_digit(t[5])
    &&& is_digit(t[6])
    &&& t[7] == '-'
    &&& is_digit(t[8])
    &&& is_digit(t[9])
}

fn date_shaped_check(s: &str) -> (r: bool)
    ensures
        r == date_shaped(s@),
{
    if s.unicode_len() != 10 {
        return false;
    }
    digit_ch(s.get_char(0)) && digit_ch(s.get_char(1)) && digit_ch(s.get_char(2)) && digit_ch(
        s.get_char(3),
    ) && s.get_char(4) == '-' && digit_ch(s.get_char(5)) && digit_ch(s.get_char(6)) && s.get_char(
        7,
    ) == '-' && digit_ch(s.get_char(8)) && digit_ch(s.get_char(9))
}

/// The last date-shaped metadata value, trimmed; later rows overwrite
/// earlier ones for this field.
pub open spec fn date_meta_down(ms: Seq<Seq<char>>, i: int) -> Option<Seq<char>>
    decreases i,
{
    if i <= 0 || i > ms.len() {
        None
    } else if date_shaped(trim_seq(ms[i - 1])) {
        Some(trim_seq(ms[i - 1]))
    } else {
        date_meta_down(ms, i - 1)
    }
}

pub open spec fn date_meta_spec(ms: Seq<Seq<char>>) -> Option<Seq<char>> {
    date_meta_down(ms, ms.len() as int)
}

pub fn date_meta(meta: &Vec<String>) -> (r: Option<String>)
    ensures
        match r {
            None => date_meta_spec(meta.deep_view()) is None,
            Some(t) => date_meta_spec(meta.deep_view()) == Some(t@),
        },
{
    let mut i: usize = meta.len();
    while i > 0
        invariant
            0 <= i <= meta.len(),
            date_meta_spec(meta.deep_view()) == date_meta_down(meta.deep_view(), i as int),
        decreases i,
    {
        let t = trim_str(meta[i - 1].as_str());
        if date_shaped_check(t.as_str()) {
            return Some(t);
        }
        i -= 1;
    }
    None
}

/// The first plot candidate whose trimmed text is longer than ten bytes.
pub open spec fn plot_from(ps: Seq<Seq<char>>, i: int) -> Option<Seq<char>>
    decreases ps.len() - i,
{
    if i < 0 || i >= ps.len() {
        None
    } else if utf8_len(trim_seq(ps[i])) > 10 {
        Some(trim_seq(ps[i]))
    } else {
        plot_from(ps, i + 1)
    }
}

pub open spec fn plot_spec(ps: Seq<Seq<char>>) -> Option<Seq<char>> {
    plot_from(ps, 0)
}

pub fn pick_plot(plots: &Vec<String>) -> (r: Option<String>)
    ensures
        match r {
            None => plot_spec(plots.deep_view()) is None,
            Some(t) => plot_spec(plots.deep_view()) == Some(t@),
        },
{
    let mut i: usize = 0;
    while i < plots.len()
        invariant
            0 <= i <= plots.len(),
            plot_spec(plots.deep_view()) == plot_from(plots.deep_view(), i as int),
        decreases plots.len() - i,
    {
        let t = trim_str(plots[i].as_str());
        if utf8_longer_than(t.as_str(), 10) {
            return Some(t);
        }
        i += 1;
    }
    None
}

// ---------------------------------------------------------------------------
// The keyed-row pass: label/value rows matched by bilingual label
// fragments.
// ---------------------------------------------------------------------------

/// One label/value row of the metadata panel.
#[derive(Debug, Clone, PartialEq)]
pub struct PanelRow {
    pub label: String,
    pub value: String,
}

/// The row's trimmed label carries one of the two recognised fragments.
pub open spec fn row_hit(r: PanelRow, k1: Seq<char>, k2: Seq<char>) -> bool {
    contains_seq(trim_seq(r.label@), k1) || contains_seq(trim_seq(r.label@), k2)
}

/// The first matching row with a non-empty trimmed value.
pub open spec fn row_text_from(rows: Seq<PanelRow>, i: int, k1: Seq<char>, k2: Seq<char>) -> Option<
    Seq<char>,
>
    decreases rows.len() - i,
{
    if i < 0 || i >= rows.len() {
        None
    } else if row_hit(rows[i], k1, k2) && trim_seq(rows[i].value@).len() > 0 {
        Some(trim_seq(rows[i].value@))
    } else {
        row_text_from(rows, i + 1, k1, k2)
    }
}

pub fn row_text(rows: &Vec<PanelRow>, k1: &str, k2: &str) -> (r: Option<String>)
    ensures
        match r {
            None => row_text_from(rows@, 0, k1@, k2@) is None,
            Some(t) => row_text_from(rows@, 0, k1@, k2@) == Some(t@),
        },
{
    let mut i: usize = 0;
    while i < rows.len()
        invariant
            0 <= i <= rows.len(),
            row_text_from(rows@, 0, k1@, k2@) == row_text_from(rows@, i as int, k1@, k2@),
        decreases rows.len() - i,
    {
        let lt = trim_str(rows[i].label.as_str());
        if contains_str(lt.as_str(), k1) || contains_str(lt.as_str(), k2) {
            let v = trim_str(rows[i].value.as_str());
            if v.as_str().unicode_len() > 0 {
                return Some(v);
            }
        }
        i += 1;
    }
    None
}

/// The first matching row whose value starts a 2-3 digit number.
pub open spec fn row_num_from(rows: Seq<PanelRow>, i: int, k1: Seq<char>, k2: Seq<char>) -> Option<
    int,
>
    decreases rows.len() - i,
{
    if i < 0 || i >= rows.len() {
        None
    } else if row_hit(rows[i], k1, k2) && first_number_spec(trim_seq(rows[i].value@)) is Some {
        first_number_spec(trim_seq(rows[i].value@))
    } else {
        row_num_from(rows, i + 1, k1, k2)
    }
}

pub fn row_number(rows: &Vec<PanelRow>, k1: &str, k2: &str) -> (r: Option<u32>)
    ensures
        match r {
            None => row_num_from(rows@, 0, k1@, k2@) is None,
            Some(v) => row_num_from(rows@, 0, k1@, k2@) == Some(v as int),
        },
{
    let mut i: usize = 0;
    while i < rows.len()
        invariant
            0 <= i <= rows.len(),
            row_num_from(rows@, 0, k1@, k2@) == row_num_from(rows@, i as int, k1@, k2@),
        decreases rows.len() - i,
    {
        let lt = trim_str(rows[i].label.as_str());
        if contains_str(lt.as_str(), k1) || contains_str(lt.as_str(), k2) {
            let v = trim_str(rows[i].value.as_str());
            let num = scan_first_number(v.as_str());
            if let Some(n) = num {
                return Some(n);
            }
        }
        i += 1;
    }
    None
}

/// The first matching row whose value starts a decimal number.
pub open spec fn row_decimal_from(
    rows: Seq<PanelRow>,
    i: int,
    k1: Seq<char>,
    k2: Seq<char>,
) -> Option<Seq<char>>
    decreases rows.len() - i,
{
    if i < 0 || i >= rows.len() {
        None
    } else if row_hit(rows[i], k1, k2) && first_decimal_spec(trim_seq(rows[i].value@)) is Some {
        first_decimal_spec(trim_seq(rows[i].value@))
    } else {
        row_decimal_from(rows, i + 1, k1, k2)
    }
}

pub fn row_decimal(rows: &Vec<PanelRow>, k1: &str, k2: &str) -> (r: Option<String>)
    ensures
        match r {
            None => row_decimal_from(rows@, 0, k1@, k2@) is None,
            Some(t) => row_decimal_from(rows@, 0, k1@, k2@) == Some(t@),
        },
{
    let mut i: usize = 0;
    while i < rows.len()
        invariant
            0 <= i <= rows.len(),
            row_decimal_from(rows@, 0, k1@, k2@) == row_decimal_from(rows@, i as int, k1@, k2@),
        decreases rows.len() - i,
    {
        let lt = trim_str(rows[i].label.as_str());
        if contains_str(lt.as_str(), k1) || contains_str(lt.as_str(), k2) {
            let v = trim_str(rows[i].value.as_str());
            let dec = scan_first_decimal(v.as_str());
            if let Some(t) = dec {
                return Some(t);
            }
        }
        i += 1;
    }
    None
}

// ---------------------------------------------------------------------------
// Magnet info lists.
// ---------------------------------------------------------------------------

/// A magnet info that carries nothing but its URI.
pub open spec fn info_bare(mi: MagnetInfo) -> bool {
    &&& mi.name is None
    &&& mi.size is None
    &&& mi.date is None
    &&& mi.seeders is None
    &&& mi.leechers is None
    &&& mi.downloads is None
}

/// Deduplicating a list that already has no repeats changes nothing.
pub proof fn lemma_dedup_distinct_identity(ss: Seq<Seq<char>>)
    requires
        texts_distinct(ss),
    ensures
        dedup_texts_spec(ss) == ss,
    decreases ss.len(),
{
    if ss.len() > 0 {
        assert forall|i: int, j: int|
            0 <= i < j < ss.drop_last().len() implies ss.drop_last()[i] != ss.drop_last()[j] by {
            assert(ss.drop_last()[i] == ss[i]);
            assert(ss.drop_last()[j] == ss[j]);
        }
        lemma_dedup_distinct_identity(ss.drop_last());
        if dedup_texts_spec(ss.drop_last()).contains(ss.last()) {
            let i = choose|i: int|
                0 <= i < ss.drop_last().len() && ss.drop_last()[i] == ss.last();
            assert(ss[i] == ss[ss.len() - 1]);
            assert(false);
        }
        assert(dedup_texts_spec(ss) =~= ss);
    } else {
        assert(dedup_texts_spec(ss) =~= ss);
    }
}

/// The primary source's markup exposes no structured swarm data, so each
/// discovered URI becomes an info with only the URI set; a URI already
/// present is skipped, never repeated.
pub fn extract_magnet_infos_from_javdb(magnets: &Vec<String>) -> (r: Vec<MagnetInfo>)
    ensures
        urls_of(r@) == dedup_texts_spec(magnets.deep_view()),
        forall|i: int| 0 <= i < r@.len() ==> info_bare(#[trigger] r@[i]),
{
    bare_infos(&dedup_texts(clone_texts(magnets)))
}

/// Mapping the rows of the secondary source's listing to its magnets is
/// not reliable, so its infos also start bare; the matched row enriches
/// one of them afterwards.  A URI already present is skipped, never
/// repeated.
pub fn extract_magnet_infos_from_sukebei(magnets: &Vec<String>) -> (r: Vec<MagnetInfo>)
    ensures
        urls_of(r@) == dedup_texts_spec(magnets.deep_view()),
        forall|i: int| 0 <= i < r@.len() ==> info_bare(#[trigger] r@[i]),
{
    bare_infos(&dedup_texts(clone_texts(magnets)))
}

fn bare_infos(magnets: &Vec<String>) -> (r: Vec<MagnetInfo>)
    ensures
        urls_of(r@) == magnets.deep_view(),
        forall|i: int| 0 <= i < r@.len() ==> info_bare(#[trigger] r@[i]),
{
    let mut out: Vec<MagnetInfo> = Vec::new();
    let mut i: usize = 0;
    while i < magnets.len()
        invariant
            0 <= i <= magnets.len(),
            out@.len() == i,
            forall|q: int|
                0 <= q < i ==> (#[trigger] out@[q]).url@ == magnets.deep_view()[q],
            forall|q: int| 0 <= q < out@.len() ==> info_bare(#[trigger] out@[q]),
        decreases magnets.len() - i,
    {
        out.push(
            MagnetInfo {
                url: magnets[i].clone(),
                name: None,
                size: None,
                date: None,
                seeders: None,
                leechers: None,
                downloads: None,
            },
        );
        i += 1;
    }
    proof {
        lemma_urls_of_index(out@);
        assert(urls_of(out@) =~= magnets.deep_view());
    }
    out
}

// ---------------------------------------------------------------------------
// The primary source's detail extractor.
// ---------------------------------------------------------------------------

/// A detail document of the primary source, reduced to plain values: each
/// field holds, in document order, the texts or attribute values of the
/// nodes its selector matched.
#[derive(Debug, Clone, PartialEq)]
pub struct JavdbDoc {
    /// Texts of the title block nodes.
    pub title_texts: Vec<String>,
    /// Texts of the document's `title` element, the fallback.
    pub page_titles: Vec<String>,
    /// Texts of the metadata panel's value nodes.
    pub meta_values: Vec<String>,
    /// Cover image addresses.
    pub cover_srcs: Vec<String>,
    /// Social-preview image addresses, the cover fallback.
    pub og_images: Vec<String>,
    /// Texts of the actor links.
    pub actor_texts: Vec<String>,
    /// Texts of the director links.
    pub director_texts: Vec<String>,
    /// Texts of the studio links.
    pub studio_texts: Vec<String>,
    /// Texts of the label links.
    pub label_texts: Vec<String>,
    /// Texts of the series links.
    pub series_texts: Vec<String>,
    /// Texts of the plot candidates.
    pub plot_texts: Vec<String>,
    /// Texts of the genre tag links.
    pub tag_texts: Vec<String>,
    /// Label/value rows of the metadata panel.
    pub rows: Vec<PanelRow>,
    /// Preview image addresses.
    pub preview_srcs: Vec<String>,
    /// The document's visible text.
    pub body_text: String,
    /// The raw markup, scanned for magnet URIs.
    pub raw_html: String,
}

/// The resolved title: the title block, else the page title, else empty.
pub open spec fn javdb_title_spec(doc: JavdbDoc) -> Seq<char> {
    if doc.title_texts.deep_view().len() > 0 {
        doc.title_texts.deep_view()[0]
    } else if doc.page_titles.deep_view().len() > 0 {
        doc.page_titles.deep_view()[0]
    } else {
        Seq::empty()
    }
}

/// A structural pick, then a keyed-row fill of what is still empty.
pub open spec fn opt_text_or(a: Option<Seq<char>>, b: Option<Seq<char>>) -> Option<Seq<char>> {
    if a is Some {
        a
    } else {
        b
    }
}

pub open spec fn javdb_date_spec(doc: JavdbDoc) -> Option<Seq<char>> {
    opt_text_or(date_meta_spec(doc.meta_values.deep_view()), date_spec(doc.body_text@))
}

pub open spec fn javdb_cover_spec(doc: JavdbDoc) -> Option<Seq<char>> {
    opt_text_or(
        first_text_spec(doc.cover_srcs.deep_view()),
        first_text_spec(doc.og_images.deep_view()),
    )
}

pub open spec fn javdb_director_spec(doc: JavdbDoc) -> Option<Seq<char>> {
    opt_text_or(
        first_trimmed_spec(doc.director_texts.deep_view()),
        row_text_from(doc.rows@, 0, "导演"@, "Director"@),
    )
}

pub open spec fn javdb_studio_spec(doc: JavdbDoc) -> Option<Seq<char>> {
    opt_text_or(
        first_trimmed_spec(doc.studio_texts.deep_view()),
        row_text_from(doc.rows@, 0, "片商"@, "Studio"@),
    )
}

pub open spec fn javdb_label_spec(doc: JavdbDoc) -> Option<Seq<char>> {
    opt_text_or(
        first_trimmed_spec(doc.label_texts.deep_view()),
        row_text_from(doc.rows@, 0, "厂牌"@, "Label"@),
    )
}

pub open spec fn javdb_series_spec(doc: JavdbDoc) -> Option<Seq<char>> {
    opt_text_or(
        first_trimmed_spec(doc.series_texts.deep_view()),
        row_text_from(doc.rows@, 0, "系列"@, "Series"@),
    )
}

pub open spec fn javdb_duration_spec(doc: JavdbDoc) -> Option<int> {
    match row_num_from(doc.rows@, 0, "时长"@, "Length"@) {
        Some(v) => Some(v),
        None => match duration_en_spec(doc.body_text@) {
            Some(v) => Some(v),
            None => duration_any_spec(doc.body_text@),
        },
    }
}

pub open spec fn javdb_rating_spec(doc: JavdbDoc) -> Option<Seq<char>> {
    opt_text_or(
        row_decimal_from(doc.rows@, 0, "评分"@, "Rating"@),
        opt_text_or(rating_en_spec(doc.body_text@), rating_alt_spec(doc.body_text@)),
    )
}

pub open spec fn javdb_magnets_spec(doc: JavdbDoc) -> Seq<Seq<char>> {
    dedup_texts_spec(magnets_spec(doc.raw_html@))
}

/// Extracts the full detail record from one primary-source document.
/// Each field follows the layered policy: structural pass first, then the
/// keyed rows, then the free-text scans, never overwriting.
pub fn parse_javdb_detail(doc: &JavdbDoc) -> (d: AvDetail)
    ensures
        d.code@ == pick_code_spec(doc.meta_values.deep_view()),
        d.code@.len() == 0 || canonical_code(d.code@),
        d.title@ == javdb_title_spec(*doc),
        d.actor_names.deep_view() == dedup_texts_spec(trim_filter(doc.actor_texts.deep_view())),
        (match d.release_date {
            None => javdb_date_spec(*doc) is None,
            Some(t) => javdb_date_spec(*doc) == Some(t@),
        }),
        (match d.cover_url {
            None => javdb_cover_spec(*doc) is None,
            Some(t) => javdb_cover_spec(*doc) == Some(t@),
        }),
        (match d.plot {
            None => plot_spec(doc.plot_texts.deep_view()) is None,
            Some(t) => plot_spec(doc.plot_texts.deep_view()) == Some(t@),
        }),
        (match d.duration_minutes {
            None => javdb_duration_spec(*doc) is None,
            Some(v) => javdb_duration_spec(*doc) == Some(v as int),
        }),
        (match d.director {
            None => javdb_director_spec(*doc) is None,
            Some(t) => javdb_director_spec(*doc) == Some(t@),
        }),
        (match d.studio {
            None => javdb_studio_spec(*doc) is None,
            Some(t) => javdb_studio_spec(*doc) == Some(t@),
        }),
        (match d.label {
            None => javdb_label_spec(*doc) is None,
            Some(t) => javdb_label_spec(*doc) == Some(t@),
        }),
        (match d.series {
            None => javdb_series_spec(*doc) is None,
            Some(t) => javdb_series_spec(*doc) == Some(t@),
        }),
        (match d.rating {
            None => javdb_rating_spec(*doc) is None,
            Some(t) => javdb_rating_spec(*doc) == Some(t@),
        }),
        texts_sorted(d.genres.deep_view()),
        texts_distinct(d.genres.deep_view()),
        forall|x: Seq<char>| #[trigger]
            d.genres.deep_view().contains(x) == tag_set(doc.tag_texts.deep_view()).contains(x),
        d.preview_images.deep_view() == doc.preview_srcs.deep_view(),
        d.magnets.deep_view() == javdb_magnets_spec(*doc),
        urls_of(d.magnet_infos@) == d.magnets.deep_view(),
        forall|i: int| 0 <= i < d.magnet_infos@.len() ==> info_bare(#[trigger] d.magnet_infos@[i]),
        d.wf(),
{
    let title = match first_text(&doc.title_texts) {
        Some(t) => t,
        None => match first_text(&doc.page_titles) {
            Some(t) => t,
            None => String::new(),
        },
    };
    let code = pick_code(&doc.meta_values);
    let release_date = match date_meta(&doc.meta_values) {
        Some(t) => Some(t),
        None => scan_date(doc.body_text.as_str()),
    };
    let cover_url = match first_text(&doc.cover_srcs) {
        Some(t) => Some(t),
        None => first_text(&doc.og_images),
    };
    let actor_names = dedup_texts(trim_nonempty(&doc.actor_texts));
    let director = match first_trimmed(&doc.director_texts) {
        Some(t) => Some(t),
        None => row_text(&doc.rows, "导演", "Director"),
    };
    let studio = match first_trimmed(&doc.studio_texts) {
        Some(t) => Some(t),
        None => row_text(&doc.rows, "片商", "Studio"),
    };
    let label = match first_trimmed(&doc.label_texts) {
        Some(t) => Some(t),
        None => row_text(&doc.rows, "厂牌", "Label"),
    };
    let series = match first_trimmed(&doc.series_texts) {
        Some(t) => Some(t),
        None => row_text(&doc.rows, "系列", "Series"),
    };
    let plot = pick_plot(&doc.plot_texts);
    let duration_minutes = match row_number(&doc.rows, "时长", "Length") {
        Some(v) => Some(v),
        None => match scan_duration_en(doc.body_text.as_str()) {
            Some(v) => Some(v),
            None => scan_duration_any(doc.body_text.as_str()),
        },
    };
    let rating = match row_decimal(&doc.rows, "评分", "Rating") {
        Some(t) => Some(t),
        None => match scan_rating_en(doc.body_text.as_str()) {
            Some(t) => Some(t),
            None => scan_rating_alt(doc.body_text.as_str()),
        },
    };
    let genres = normalize_tags(&doc.tag_texts);
    let preview_images = clone_texts(&doc.preview_srcs);
    let magnets = dedup_texts(scan_magnets(doc.raw_html.as_str()));
    let magnet_infos = extract_magnet_infos_from_javdb(&magnets);
    proof {
        lemma_pick_code_canonical(doc.meta_values.deep_view(), 0);
        lemma_dedup_texts(magnets_spec(doc.raw_html@));
        lemma_dedup_distinct_identity(magnets.deep_view());
        lemma_urls_of_index(magnet_infos@);
    }
    AvDetail {
        code,
        title,
        actor_names,
        release_date,
        cover_url,
        plot,
        duration_minutes,
        director,
        studio,
        label,
        series,
        genres,
        rating,
        preview_images,
        magnet_infos,
        magnets,
    }
}

// ---------------------------------------------------------------------------
// The secondary source's extractor: deliberately minimal.
// ---------------------------------------------------------------------------

/// One row of the secondary source's listing table, reduced to plain
/// values: the result link's text and address, the row's magnet link, and
/// the cell texts in column order.
#[derive(Debug, Clone, PartialEq)]
pub struct SukebeiRow {
    pub title: String,
    pub href: Option<String>,
    pub magnet: Option<String>,
    pub cells: Vec<String>,
}

/// A detail page of the secondary source, reduced to plain values.
#[derive(Debug, Clone, PartialEq)]
pub struct SukebeiDoc {
    /// Texts of the torrent name nodes.
    pub name_texts: Vec<String>,
    /// The addresses of the page's magnet links, in document order.
    pub magnet_hrefs: Vec<String>,
}

/// A listing row answers the query when its title, upper-cased, carries
/// the code and the row links to a detail page.
pub open spec fn srow_hit(r: SukebeiRow, code: Seq<char>) -> bool {
    contains_seq(upper_seq(r.title@), code) && r.href is Some
}

pub open spec fn pick_row_from(rows: Seq<SukebeiRow>, i: int, code: Seq<char>) -> Option<int>
    decreases rows.len() - i,
{
    if i < 0 || i >= rows.len() {
        None
    } else if srow_hit(rows[i], code) {
        Some(i)
    } else {
        pick_row_from(rows, i + 1, code)
    }
}

/// Index of the first listing row that answers the query.
pub open spec fn pick_row_spec(rows: Seq<SukebeiRow>, code: Seq<char>) -> Option<int> {
    pick_row_from(rows, 0, code)
}

pub fn sukebei_pick_row(rows: &Vec<SukebeiRow>, code: &str) -> (r: Option<usize>)
    ensures
        match r {
            None => pick_row_spec(rows@, code@) is None,
            Some(i) => pick_row_spec(rows@, code@) == Some(i as int) && i < rows@.len(),
        },
{
    let mut i: usize = 0;
    while i < rows.len()
        invariant
            0 <= i <= rows.len(),
            pick_row_spec(rows@, code@) == pick_row_from(rows@, i as int, code@),
        decreases rows.len() - i,
    {
        let u = upper_str(rows[i].title.as_str());
        if contains_str(u.as_str(), code) && rows[i].href.is_some() {
            return Some(i);
        }
        i += 1;
    }
    None
}

/// The secondary detail's title: the page's torrent name when its trimmed
/// text is non-empty, else the listing row's title.
pub open spec fn sukebei_title_spec(names: Seq<Seq<char>>, guess: Seq<char>) -> Seq<char> {
    if names.len() > 0 && trim_seq(names[0]).len() > 0 {
        names[0]
    } else {
        guess
    }
}

/// Extracts the minimal detail the secondary source can give: title and
/// magnets; every richer field stays empty, and callers must not assume
/// otherwise.
pub fn parse_sukebei_detail(doc: &SukebeiDoc, code: &str, title_guess: &str) -> (d: AvDetail)
    ensures
        d.code@ == upper_seq(code@),
        d.title@ == sukebei_title_spec(doc.name_texts.deep_view(), title_guess@),
        d.magnets.deep_view() == dedup_texts_spec(doc.magnet_hrefs.deep_view()),
        urls_of(d.magnet_infos@) == d.magnets.deep_view(),
        forall|i: int| 0 <= i < d.magnet_infos@.len() ==> info_bare(#[trigger] d.magnet_infos@[i]),
        d.actor_names@.len() == 0,
        d.release_date is None,
        d.cover_url is None,
        d.plot is None,
        d.duration_minutes is None,
        d.director is None,
        d.studio is None,
        d.label is None,
        d.series is None,
        d.genres@.len() == 0,
        d.rating is None,
        d.preview_images@.len() == 0,
        d.wf(),
{
    let title = if doc.name_texts.len() > 0 {
        let t = trim_str(doc.name_texts[0].as_str());
        if t.as_str().unicode_len() > 0 {
            doc.name_texts[0].clone()
        } else {
            String::from_str(title_guess)
        }
    } else {
        String::from_str(title_guess)
    };
    let magnets = dedup_texts(clone_texts(&doc.magnet_hrefs));
    let magnet_infos = extract_magnet_infos_from_sukebei(&magnets);
    proof {
        lemma_dedup_texts(doc.magnet_hrefs.deep_view());
        lemma_dedup_distinct_identity(magnets.deep_view());
        lemma_urls_of_index(magnet_infos@);
    }
    AvDetail {
        code: upper_str(code),
        title,
        actor_names: Vec::new(),
        release_date: None,
        cover_url: None,
        plot: None,
        duration_minutes: None,
        director: None,
        studio: None,
        label: None,
        series: None,
        genres: Vec::new(),
        rating: None,
        preview_images: Vec::new(),
        magnet_infos,
        magnets,
    }
}

/// The cell at column `i`, trimmed.
pub open spec fn cell_trim(cells: Seq<Seq<char>>, i: int) -> Option<Seq<char>> {
    if 0 <= i < cells.len() {
        Some(trim_seq(cells[i]))
    } else {
        None
    }
}

/// The cell at column `i`, trimmed and read as a number.
pub open spec fn cell_num(cells: Seq<Seq<char>>, i: int) -> Option<u32> {
    if 0 <= i < cells.len() {
        parse_u32_spec(trim_seq(cells[i]))
    } else {
        None
    }
}

fn cell_text(cells: &Vec<String>, i: usize) -> (r: Option<String>)
    ensures
        match r {
            None => cell_trim(cells.deep_view(), i as int) is None,
            Some(t) => cell_trim(cells.deep_view(), i as int) == Some(t@),
        },
{
    if i < cells.len() {
        Some(trim_str(cells[i].as_str()))
    } else {
        None
    }
}

fn cell_number(cells: &Vec<String>, i: usize) -> (r: Option<u32>)
    ensures
        r == cell_num(cells.deep_view(), i as int),
{
    if i < cells.len() {
        let t = trim_str(cells[i].as_str());
        parse_u32_str(t.as_str())
    } else {
        None
    }
}

/// The info the matched listing row contributes: its magnet URI, named
/// after the row's title, with the swarm columns read at their fixed
/// offsets.
pub open spec fn row_info_matches(mi: MagnetInfo, row: SukebeiRow, m: Seq<char>) -> bool {
    &&& mi.url@ == m
    &&& (match mi.name {
        Some(t) => t@ == row.title@,
        None => false,
    })
    &&& (match mi.size {
        Some(t) => cell_trim(row.cells.deep_view(), 3) == Some(t@),
        None => cell_trim(row.cells.deep_view(), 3) is None,
    })
    &&& (match mi.date {
        Some(t) => cell_trim(row.cells.deep_view(), 4) == Some(t@),
        None => cell_trim(row.cells.deep_view(), 4) is None,
    })
    &&& mi.seeders == cell_num(row.cells.deep_view(), 5)
    &&& mi.leechers == cell_num(row.cells.deep_view(), 6)
    &&& mi.downloads == cell_num(row.cells.deep_view(), 7)
}

/// Adds the matched row's magnet and swarm data to a secondary detail,
/// unless that URI is already present: duplicates are skipped, never
/// repeated.
pub fn enrich_from_row(d: AvDetail, row: &SukebeiRow) -> (r: AvDetail)
    requires
        d.wf(),
    ensures
        r.wf(),
        (match row.magnet {
            None => r == d,
            Some(ref m) => {
                if d.magnets.deep_view().contains(m@) {
                    r == d
                } else {
                    &&& r.magnets.deep_view() == d.magnets.deep_view().push(m@)
                    &&& r.magnet_infos@.len() == d.magnet_infos@.len() + 1
                    &&& forall|i: int|
                        0 <= i < d.magnet_infos@.len() ==> #[trigger] r.magnet_infos@[i]
                            == d.magnet_infos@[i]
                    &&& row_info_matches(r.magnet_infos@.last(), *row, m@)
                    &&& r.code == d.code
                    &&& r.title == d.title
                    &&& r.actor_names == d.actor_names
                    &&& r.release_date == d.release_date
                    &&& r.cover_url == d.cover_url
                    &&& r.plot == d.plot
                    &&& r.duration_minutes == d.duration_minutes
                    &&& r.director == d.director
                    &&& r.studio == d.studio
                    &&& r.label == d.label
                    &&& r.series == d.series
                    &&& r.genres == d.genres
                    &&& r.rating == d.rating
                    &&& r.preview_images == d.preview_images
                }
            },
        }),
{
    match &row.magnet {
        None => d,
        Some(m) => {
            if contains_text(&d.magnets, m.as_str()) {
                d
            } else {
                let ghost prevm = d.magnets.deep_view();
                let ghost previ = d.magnet_infos@;
                let mi = MagnetInfo {
                    url: m.clone(),
                    name: Some(row.title.clone()),
                    size: cell_text(&row.cells, 3),
                    date: cell_text(&row.cells, 4),
                    seeders: cell_number(&row.cells, 5),
                    leechers: cell_number(&row.cells, 6),
                    downloads: cell_number(&row.cells, 7),
                };
                let mut magnets = d.magnets;
                let mut magnet_infos = d.magnet_infos;
                magnets.push(m.clone());
                magnet_infos.push(mi);
                let r = AvDetail { magnets, magnet_infos, ..d };
                proof {
                    assert(r.magnets.deep_view() =~= prevm.push(m@));
                    assert(urls_of(r.magnet_infos@) =~= r.magnets.deep_view());
                    assert forall|i: int, j: int|
                        0 <= i < j < r.magnets.deep_view().len() implies r.magnets.deep_view()[i]
                        != r.magnets.deep_view()[j] by {
                        if j == r.magnets.deep_view().len() - 1 {
                            if prevm[i] == m@ {
                                assert(prevm.contains(m@));
                            }
                        }
                    }
                }
                r
            }
        },
    }
}

// ---------------------------------------------------------------------------
// Search and listing items.
// ---------------------------------------------------------------------------

/// The items derived from the first `i` titles: one per title with a
/// recoverable code; titles without one are dropped, never padded.
pub open spec fn items_upto(ts: Seq<Seq<char>>, i: int) -> Seq<(Seq<char>, Seq<char>)>
    decreases i,
{
    if i <= 0 || i > ts.len() {
        Seq::empty()
    } else {
        let pre = items_upto(ts, i - 1);
        match extract_code_spec(ts[i - 1]) {
            Some(c) => pre.push((c, ts[i - 1])),
            None => pre,
        }
    }
}

/// The items a title list yields, in order.
pub open spec fn items_spec(ts: Seq<Seq<char>>) -> Seq<(Seq<char>, Seq<char>)> {
    items_upto(ts, ts.len() as int)
}

/// The produced items carry exactly the expected code/title pairs.
pub open spec fn items_match(items: Seq<AvItem>, expected: Seq<(Seq<char>, Seq<char>)>) -> bool {
    &&& items.len() == expected.len()
    &&& forall|i: int|
        0 <= i < items.len() ==> (#[trigger] items[i]).code@ == expected[i].0 && items[i].title@
            == expected[i].1
}

/// Builds the search or listing items out of scraped titles: each title
/// with a recoverable code becomes one item, the rest are dropped.
pub fn items_from_titles(titles: &Vec<String>) -> (r: Vec<AvItem>)
    ensures
        items_match(r@, items_spec(titles.deep_view())),
        forall|i: int| 0 <= i < r@.len() ==> canonical_code((#[trigger] r@[i]).code@),
{
    let mut out: Vec<AvItem> = Vec::new();
    let mut i: usize = 0;
    while i < titles.len()
        invariant
            0 <= i <= titles.len(),
            items_match(out@, items_upto(titles.deep_view(), i as int)),
            forall|q: int| 0 <= q < out@.len() ==> canonical_code((#[trigger] out@[q]).code@),
        decreases titles.len() - i,
    {
        let title = titles[i].clone();
        assert(title@ == titles.deep_view()[i as int]);
        let c = extract_code_from_title(title.as_str());
        if let Some(code) = c {
            proof {
                lemma_extracted_code_canonical(title@, code@);
            }
            out.push(AvItem { code, title });
        }
        i += 1;
    }
    out
}

/// One result card of the primary source's search page.
#[derive(Debug, Clone, PartialEq)]
pub struct JavdbCard {
    /// The card link's address, when the markup carries one.
    pub href: Option<String>,
    /// Texts of the card's title nodes.
    pub title_texts: Vec<String>,
}

/// The title a card shows: its first title node's text, else empty.
pub open spec fn card_title(c: JavdbCard) -> Seq<char> {
    if c.title_texts@.len() > 0 {
        c.title_texts@[0]@
    } else {
        Seq::empty()
    }
}

/// The titles of a card list, in order.
pub fn card_titles(cards: &Vec<JavdbCard>) -> (r: Vec<String>)
    ensures
        r@.len() == cards@.len(),
        forall|i: int| 0 <= i < r@.len() ==> r.deep_view()[i] == card_title(#[trigger] cards@[i]),
{
    let mut out: Vec<String> = Vec::new();
    let mut i: usize = 0;
    while i < cards.len()
        invariant
            0 <= i <= cards.len(),
            out@.len() == i,
            forall|q: int|
                0 <= q < i ==> out.deep_view()[q] == card_title(#[trigger] cards@[q]),
        decreases cards.len() - i,
    {
        if cards[i].title_texts.len() > 0 {
            out.push(cards[i].title_texts[0].clone());
        } else {
            out.push(String::new());
        }
        i += 1;
    }
    out
}

/// The titles of a secondary listing's rows, in order.
pub fn row_titles(rows: &Vec<SukebeiRow>) -> (r: Vec<String>)
    ensures
        r@.len() == rows@.len(),
        forall|i: int| 0 <= i < r@.len() ==> r.deep_view()[i] == (#[trigger] rows@[i]).title@,
{
    let mut out: Vec<String> = Vec::new();
    let mut i: usize = 0;
    while i < rows.len()
        invariant
            0 <= i <= rows.len(),
            out@.len() == i,
            forall|q: int| 0 <= q < i ==> out.deep_view()[q] == (#[trigger] rows@[q]).title@,
        decreases rows.len() - i,
    {
        out.push(rows[i].title.clone());
        i += 1;
    }
    out
}

} // verus!
