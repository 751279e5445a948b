//! The resolution orchestrator's decision core.
//!
//! Every operation follows the same two-source shape: try the primary
//! source, and only where it failed or came back incomplete, consult the
//! secondary one.  The fetches themselves are the transport's business;
//! everything decided between them — which URL to fetch, which result row
//! to follow, when to fall back, how to merge — stands here, as functions
//! from plain values to plain values.

use vstd::prelude::*;
use crate::chars::{upper_seq, upper_str, contains_seq, contains_str};
use crate::code::{canonical_code, canonical_code_check};
use crate::types::{AvItem, MagnetInfo, AvDetail, AvError, urls_of, lemma_urls_of_index};
use crate::extract::JavdbCard;

verus! {

// ---------------------------------------------------------------------------
// Query URLs.
// ---------------------------------------------------------------------------

/// What `urlencoding::encode` makes of a query: a function of the text
/// alone.
pub uninterp spec fn url_encoded(s: Seq<char>) -> Seq<char>;

/// Relies on `urlencoding::encode`: percent-encodes every byte except
/// ASCII alphanumerics and `-`, `_`, `.`, `~`; deterministic in its input.
#[verifier::external_body]
fn encode_query(s: &str) -> (r: String)
    ensures
        r@ == url_encoded(s@),
{
    urlencoding::encode(s).into_owned()
}

pub open spec fn javdb_search_url_spec(q: Seq<char>) -> Seq<char> {
    "https://javdb.com/search?q="@ + url_encoded(q) + "&f=all"@
}

/// The primary source's free-text search URL.
pub fn javdb_search_url(q: &str) -> (r: String)
    ensures
        r@ == javdb_search_url_spec(q@),
{
    String::from_str("https://javdb.com/search?q=").concat(encode_query(q).as_str()).concat(
        "&f=all",
    )
}

pub open spec fn javdb_actor_url_spec(q: Seq<char>) -> Seq<char> {
    "https://javdb.com/search?q="@ + url_encoded(q) + "&f=actor"@
}

/// The primary source's actor-scoped search URL.
pub fn javdb_actor_url(q: &str) -> (r: String)
    ensures
        r@ == javdb_actor_url_spec(q@),
{
    String::from_str("https://javdb.com/search?q=").concat(encode_query(q).as_str()).concat(
        "&f=actor",
    )
}

pub open spec fn sukebei_search_url_spec(q: Seq<char>) -> Seq<char> {
    "https://sukebei.nyaa.si/?f=0&c=0_0&q="@ + url_encoded(q)
}

/// The secondary source's search URL; it has no actor-scoped endpoint, so
/// actor listings degrade to this text search.
pub fn sukebei_search_url(q: &str) -> (r: String)
    ensures
        r@ == sukebei_search_url_spec(q@),
{
    String::from_str("https://sukebei.nyaa.si/?f=0&c=0_0&q=").concat(encode_query(q).as_str())
}

/// An address that already names its scheme.
pub open spec fn starts_with_http(s: Seq<char>) -> bool {
    s.len() >= 4 && s[0] == 'h' && s[1] == 't' && s[2] == 't' && s[3] == 'p'
}

/// A relative address resolved against its source's origin.
pub open spec fn absolute_url_spec(base: Seq<char>, href: Seq<char>) -> Seq<char> {
    if starts_with_http(href) {
        href
    } else {
        base + href
    }
}

pub fn absolute_url(base: &str, href: &str) -> (r: String)
    ensures
        r@ == absolute_url_spec(base@, href@),
{
    let n = href.unicode_len();
    if n >= 4 && href.get_char(0) == 'h' && href.get_char(1) == 't' && href.get_char(2) == 't'
        && href.get_char(3) == 'p' {
        String::from_str(href)
    } else {
        String::from_str(base).concat(href)
    }
}

/// Where the primary search leads for a detail lookup: the first result
/// card's address.  No card means the source had nothing; a card without
/// an address is broken markup.
pub open spec fn javdb_detail_url_spec(cards: Seq<JavdbCard>) -> Result<Seq<char>, AvError> {
    if cards.len() == 0 {
        Err(AvError::NotFound)
    } else {
        match cards[0].href {
            Some(h) => Ok(absolute_url_spec("https://javdb.com"@, h@)),
            None => Err(AvError::ParseFailure),
        }
    }
}

pub fn javdb_pick_detail_url(cards: &Vec<JavdbCard>) -> (r: Result<String, AvError>)
    ensures
        match r {
            Ok(u) => javdb_detail_url_spec(cards@) == Ok::<Seq<char>, AvError>(u@),
            Err(e) => javdb_detail_url_spec(cards@) == Err::<Seq<char>, AvError>(e),
        },
{
    if cards.len() == 0 {
        return Err(AvError::NotFound);
    }
    match &cards[0].href {
        Some(h) => Ok(absolute_url("https://javdb.com", h.as_str())),
        None => Err(AvError::ParseFailure),
    }
}

/// The detail address of a matched secondary listing row.
pub fn sukebei_row_url(href: &str) -> (r: String)
    ensures
        r@ == absolute_url_spec("https://sukebei.nyaa.si"@, href@),
{
    absolute_url("https://sukebei.nyaa.si", href)
}

// ---------------------------------------------------------------------------
// The detail fallback and merge policy.
// ---------------------------------------------------------------------------

/// What remains to do after the primary detail attempt.
pub enum DetailStep {
    /// The operation is decided.
    Done(Result<AvDetail, AvError>),
    /// The secondary source must be consulted; a primary detail without
    /// magnets may be carried along, waiting for enrichment.
    NeedSecondary(Option<AvDetail>),
}

/// The normalised form every lookup starts from: the code upper-cased.
pub fn normalize_code(code: &str) -> (r: String)
    ensures
        r@ == upper_seq(code@),
{
    upper_str(code)
}

pub open spec fn after_primary_spec(p: Result<AvDetail, AvError>) -> DetailStep {
    match p {
        Ok(d) => if d.magnets@.len() > 0 {
            DetailStep::Done(Ok(d))
        } else {
            DetailStep::NeedSecondary(Some(d))
        },
        Err(_) => DetailStep::NeedSecondary(None),
    }
}

/// Decides after the primary attempt: a detail with magnets is final; one
/// without waits for the secondary source's magnets; a failure falls back
/// entirely, and its error is swallowed, never surfaced.
pub fn detail_after_primary(p: Result<AvDetail, AvError>) -> (r: DetailStep)
    ensures
        r == after_primary_spec(p),
{
    match p {
        Ok(d) => {
            if d.magnets.len() > 0 {
                DetailStep::Done(Ok(d))
            } else {
                DetailStep::NeedSecondary(Some(d))
            }
        },
        Err(_) => DetailStep::NeedSecondary(None),
    }
}

/// The primary detail with the secondary's magnet collections in place of
/// its own; both collections move together, so they cannot diverge.
pub open spec fn merge_magnets_spec(d: AvDetail, s: AvDetail) -> AvDetail {
    AvDetail { magnets: s.magnets, magnet_infos: s.magnet_infos, ..d }
}

pub open spec fn after_secondary_spec(
    pending: Option<AvDetail>,
    s: Result<AvDetail, AvError>,
) -> Result<AvDetail, AvError> {
    match pending {
        Some(d) => match s {
            Ok(sd) => if sd.magnets@.len() > 0 {
                Ok(merge_magnets_spec(d, sd))
            } else {
                Ok(d)
            },
            Err(_) => Ok(d),
        },
        None => s,
    }
}

/// Decides after the secondary attempt.  A pending primary detail wins
/// in any case — the secondary can only contribute magnets to it; with no
/// pending detail the secondary's outcome, success or failure, is the
/// operation's outcome.
pub fn detail_after_secondary(pending: Option<AvDetail>, s: Result<AvDetail, AvError>) -> (r:
    Result<AvDetail, AvError>)
    ensures
        r == after_secondary_spec(pending, s),
        (match pending {
            Some(d) => d.wf(),
            None => true,
        } && match s {
            Ok(sd) => sd.wf(),
            Err(_) => true,
        }) ==> match r {
            Ok(rd) => rd.wf(),
            Err(_) => true,
        },
{
    match pending {
        Some(d) => match s {
            Ok(sd) => {
                if sd.magnets.len() > 0 {
                    Ok(AvDetail { magnets: sd.magnets, magnet_infos: sd.magnet_infos, ..d })
                } else {
                    Ok(d)
                }
            },
            Err(_) => Ok(d),
        },
        None => s,
    }
}

/// The whole detail policy as one function of the two attempts' outcomes;
/// the secondary outcome is only consulted where the steps ask for it.
pub open spec fn resolve_detail_spec(
    p: Result<AvDetail, AvError>,
    s: Result<AvDetail, AvError>,
) -> Result<AvDetail, AvError> {
    match after_primary_spec(p) {
        DetailStep::Done(r) => r,
        DetailStep::NeedSecondary(pending) => after_secondary_spec(pending, s),
    }
}

// ---------------------------------------------------------------------------
// Search, actor listing, and the listing operations.
// ---------------------------------------------------------------------------

/// What remains to do after the primary search attempt.
pub enum SearchStep {
    /// The primary source answered with items; they are the result.
    Done(Vec<AvItem>),
    /// The primary source had nothing; the secondary must be asked.
    NeedSecondary,
}

/// A duplicate of one item, equal to it.
fn copy_item(it: &AvItem) -> (r: AvItem)
    ensures
        r == *it,
{
    AvItem { code: it.code.clone(), title: it.title.clone() }
}

/// The one-item result of a direct code hit.  A detail whose code is not
/// canonical yields nothing — the caller falls through to the text
/// search; a result item never carries an empty or loose code.
pub fn item_of_detail(d: &AvDetail) -> (r: Option<Vec<AvItem>>)
    ensures
        match r {
            Some(items) => {
                &&& canonical_code(d.code@)
                &&& items@.len() == 1
                &&& items@[0].code@ == d.code@
                &&& items@[0].title@ == d.title@
            },
            None => !canonical_code(d.code@),
        },
{
    if canonical_code_check(d.code.as_str()) {
        let mut out: Vec<AvItem> = Vec::new();
        out.push(AvItem { code: d.code.clone(), title: d.title.clone() });
        Some(out)
    } else {
        None
    }
}

/// Decides after the primary search: a non-empty item list is final, an
/// empty one sends the query to the secondary source.  An empty final
/// answer is a valid answer, never an error.
pub fn search_after_primary(items: Vec<AvItem>) -> (r: SearchStep)
    ensures
        match r {
            SearchStep::Done(v) => v@ == items@ && items@.len() > 0,
            SearchStep::NeedSecondary => items@.len() == 0,
        },
{
    if items.len() > 0 {
        SearchStep::Done(items)
    } else {
        SearchStep::NeedSecondary
    }
}

/// The item-list fallback policy: exactly the primary's items when it has
/// any, else exactly the secondary's.
pub open spec fn fallback_items_spec(primary: Seq<AvItem>, secondary: Seq<AvItem>) -> Seq<
    AvItem,
> {
    if primary.len() > 0 {
        primary
    } else {
        secondary
    }
}

/// At most the first `limit` items of a listing.
pub open spec fn take_limit_spec(items: Seq<AvItem>, limit: int) -> Seq<AvItem> {
    if limit <= items.len() {
        items.take(limit)
    } else {
        items
    }
}

pub fn take_limit(items: Vec<AvItem>, limit: usize) -> (r: Vec<AvItem>)
    ensures
        r@ == take_limit_spec(items@, limit as int),
{
    if items.len() <= limit {
        proof {
            assert(items@.take(items@.len() as int) =~= items@);
        }
        return items;
    }
    let mut out: Vec<AvItem> = Vec::new();
    let mut i: usize = 0;
    while i < limit
        invariant
            0 <= i <= limit,
            limit < items@.len(),
            out@ =~= items@.take(i as int),
        decreases limit - i,
    {
        out.push(copy_item(&items[i]));
        proof {
            assert(out@ =~= items@.take(i + 1));
        }
        i += 1;
    }
    out
}

/// The page of a listing: `per_page` items starting after `page - 1`
/// earlier pages; past the end, or with nothing per page, the page is
/// empty.
pub open spec fn page_slice_spec(items: Seq<AvItem>, page: int, per_page: int) -> Seq<AvItem> {
    let start: int = if page >= 1 {
        (page - 1) * per_page
    } else {
        0
    };
    if per_page <= 0 || start >= items.len() {
        Seq::empty()
    } else if start + per_page <= items.len() {
        items.subrange(start, start + per_page)
    } else {
        items.subrange(start, items.len() as int)
    }
}

pub fn page_slice(items: &Vec<AvItem>, page: usize, per_page: usize) -> (r: Vec<AvItem>)
    ensures
        r@ == page_slice_spec(items@, page as int, per_page as int),
{
    let total = items.len();
    if per_page == 0 {
        return Vec::new();
    }
    let start_n: usize = if page >= 1 {
        match (page - 1).checked_mul(per_page) {
            Some(v) => v,
            None => {
                proof {
                    assert(items@.len() <= usize::MAX);
                    assert((page - 1) * per_page >= items@.len()) by (nonlinear_arith)
                        requires
                            (page - 1) * per_page > usize::MAX,
                            items@.len() <= usize::MAX,
                    ;
                }
                return Vec::new();
            },
        }
    } else {
        0
    };
    if start_n >= total {
        return Vec::new();
    }
    let end: usize = if total - start_n <= per_page {
        total
    } else {
        start_n + per_page
    };
    let mut out: Vec<AvItem> = Vec::new();
    let mut i: usize = start_n;
    while i < end
        invariant
            start_n <= i <= end <= items@.len(),
            out@ =~= items@.subrange(start_n as int, i as int),
        decreases end - i,
    {
        out.push(copy_item(&items[i]));
        proof {
            assert(out@ =~= items@.subrange(start_n as int, i + 1));
        }
        i += 1;
    }
    out
}

/// The caller-side heuristic for the listing filter: the title carries an
/// uncensored marker.
pub open spec fn looks_uncensored_spec(t: Seq<char>) -> bool {
    contains_seq(upper_seq(t), "UNCENSORED"@) || contains_seq(t, "无码"@) || contains_seq(
        t,
        "無修正"@,
    )
}

pub fn looks_uncensored(title: &str) -> (r: bool)
    ensures
        r == looks_uncensored_spec(title@),
{
    let u = upper_str(title);
    contains_str(u.as_str(), "UNCENSORED") || contains_str(title, "无码") || contains_str(
        title,
        "無修正",
    )
}

// ---------------------------------------------------------------------------
// Magnet selection: the caller-level step after a detail resolves.
// ---------------------------------------------------------------------------

pub open spec fn seeders_or_zero(mi: MagnetInfo) -> int {
    match mi.seeders {
        Some(v) => v as int,
        None => 0,
    }
}

/// Index of the best magnet info among the first `n`: the most seeded
/// one, the last such on a tie.
pub open spec fn best_info_idx(infos: Seq<MagnetInfo>, n: int) -> int
    decreases n,
{
    if n <= 1 {
        0
    } else {
        let p = best_info_idx(infos, n - 1);
        if seeders_or_zero(infos[n - 1]) >= seeders_or_zero(infos[p]) {
            n - 1
        } else {
            p
        }
    }
}

pub proof fn lemma_best_info_idx(infos: Seq<MagnetInfo>, n: int)
    requires
        1 <= n <= infos.len(),
    ensures
        0 <= best_info_idx(infos, n) < n,
        forall|i: int|
            0 <= i < n ==> seeders_or_zero(#[trigger] infos[i]) <= seeders_or_zero(
                infos[best_info_idx(infos, n)],
            ),
    decreases n,
{
    if n > 1 {
        lemma_best_info_idx(infos, n - 1);
    }
}

/// The URI the download step should use: the most seeded magnet info,
/// else the first plain magnet; with nothing to pick from, the operation
/// fails with the no-magnet condition — and only then.
pub open spec fn select_magnet_spec(d: AvDetail) -> Result<Seq<char>, AvError> {
    if d.magnet_infos@.len() > 0 {
        Ok(d.magnet_infos@[best_info_idx(d.magnet_infos@, d.magnet_infos@.len() as int)].url@)
    } else if d.magnets@.len() > 0 {
        Ok(d.magnets.deep_view()[0])
    } else {
        Err(AvError::NoMagnet)
    }
}

pub fn select_magnet(d: &AvDetail) -> (r: Result<String, AvError>)
    ensures
        match r {
            Ok(u) => select_magnet_spec(*d) == Ok::<Seq<char>, AvError>(u@),
            Err(e) => select_magnet_spec(*d) == Err::<Seq<char>, AvError>(e) && e
                == AvError::NoMagnet,
        },
{
    if d.magnet_infos.len() > 0 {
        let mut best: usize = 0;
        let mut i: usize = 1;
        while i < d.magnet_infos.len()
            invariant
                1 <= i <= d.magnet_infos@.len(),
                best as int == best_info_idx(d.magnet_infos@, i as int),
                best < i,
            decreases d.magnet_infos@.len() - i,
        {
            let cur = match d.magnet_infos[i].seeders {
                Some(v) => v,
                None => 0,
            };
            let so_far = match d.magnet_infos[best].seeders {
                Some(v) => v,
                None => 0,
            };
            if cur >= so_far {
                best = i;
            }
            i += 1;
        }
        Ok(d.magnet_infos[best].url.clone())
    } else if d.magnets.len() > 0 {
        Ok(d.magnets[0].clone())
    } else {
        Err(AvError::NoMagnet)
    }
}

// ---------------------------------------------------------------------------
// Laws of the policy.
// ---------------------------------------------------------------------------

/// Law: when the primary source fails — unreachable among the causes —
/// and the secondary succeeds, the resolution is exactly the secondary's
/// detail; the primary's error never surfaces.
pub proof fn lemma_fallback_on_unreachable(s: AvDetail)
    ensures
        after_primary_spec(Err(AvError::Unreachable)) == DetailStep::NeedSecondary(
            None::<AvDetail>,
        ),
        resolve_detail_spec(Err(AvError::Unreachable), Ok(s)) == Ok::<AvDetail, AvError>(s),
{
}

/// Law: in a well-formed detail each magnet URI has exactly one entry in
/// `magnets` and exactly one in `magnetInfos`, however many sources
/// emitted it.
pub proof fn lemma_magnet_unique(d: AvDetail, m: Seq<char>)
    requires
        d.wf(),
        d.magnets.deep_view().contains(m),
    ensures
        exists|i: int|
            {
                &&& 0 <= i < d.magnets.deep_view().len()
                &&& d.magnets.deep_view()[i] == m
                &&& forall|j: int|
                    0 <= j < d.magnets.deep_view().len() && d.magnets.deep_view()[j] == m ==> j
                        == i
                &&& (#[trigger] urls_of(d.magnet_infos@)[i]) == m
                &&& forall|j: int|
                    0 <= j < urls_of(d.magnet_infos@).len() && urls_of(d.magnet_infos@)[j] == m
                        ==> j == i
            },
{
    lemma_urls_of_index(d.magnet_infos@);
    let i = choose|i: int|
        0 <= i < d.magnets.deep_view().len() && d.magnets.deep_view()[i] == m;
    assert(urls_of(d.magnet_infos@)[i] == m);
    assert forall|j: int|
        0 <= j < d.magnets.deep_view().len() && d.magnets.deep_view()[j] == m implies j == i by {
        if j != i {
            assert(d.magnets.deep_view()[i] != d.magnets.deep_view()[j]);
        }
    }
}

/// Law: every operation's policy is a pure function of its inputs and the
/// sources' outcomes — equal outcomes give equal results, so repeating a
/// query against identical responses repeats its answer.
pub proof fn lemma_operations_deterministic(
    p1: Result<AvDetail, AvError>,
    p2: Result<AvDetail, AvError>,
    s1: Result<AvDetail, AvError>,
    s2: Result<AvDetail, AvError>,
    items_p1: Seq<AvItem>,
    items_p2: Seq<AvItem>,
    items_s1: Seq<AvItem>,
    items_s2: Seq<AvItem>,
    limit: int,
    page: int,
    per_page: int,
)
    requires
        p1 == p2,
        s1 == s2,
        items_p1 == items_p2,
        items_s1 == items_s2,
    ensures
        resolve_detail_spec(p1, s1) == resolve_detail_spec(p2, s2),
        fallback_items_spec(items_p1, items_s1) == fallback_items_spec(items_p2, items_s2),
        take_limit_spec(items_p1, limit) == take_limit_spec(items_p2, limit),
        page_slice_spec(items_p1, page, per_page) == page_slice_spec(items_p2, page, per_page),
{
}

} // verus!
