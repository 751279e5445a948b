//! The entity shapes a resolution returns, and their invariants.

use vstd::prelude::*;
use crate::chars::lex_lt;

verus! {

/// Why a resolution attempt produced nothing.
#[derive(Debug, Clone, Copy, PartialEq, Eq, Structural)]
pub enum AvError {
    /// The source answered, but no page or row matched the query.
    NotFound,
    /// Transport failed or the response status was not a success.
    Unreachable,
    /// An expected structural element was absent from the document.
    ParseFailure,
    /// The detail resolved, but carries no usable magnet URI.
    NoMagnet,
}

/// One search or listing result: a canonical code and the title it was
/// derived from.
#[derive(Debug, Clone, PartialEq)]
pub struct AvItem {
    pub code: String,
    pub title: String,
}

/// One magnet URI with whatever swarm metadata the source exposed.
#[derive(Debug, Clone, PartialEq)]
pub struct MagnetInfo {
    pub url: String,
    pub name: Option<String>,
    pub size: Option<String>,
    pub date: Option<String>,
    pub seeders: Option<u32>,
    pub leechers: Option<u32>,
    pub downloads: Option<u32>,
}

/// The fully resolved record for one catalog code.  Optional fields stay
/// empty when no extraction pass filled them; that is an answer, not an
/// error.
#[derive(Debug, Clone, PartialEq)]
pub struct AvDetail {
    pub code: String,
    pub title: String,
    pub actor_names: Vec<String>,
    pub release_date: Option<String>,
    pub cover_url: Option<String>,
    pub plot: Option<String>,
    pub duration_minutes: Option<u32>,
    pub director: Option<String>,
    pub studio: Option<String>,
    pub label: Option<String>,
    pub series: Option<String>,
    pub genres: Vec<String>,
    pub rating: Option<String>,
    pub preview_images: Vec<String>,
    pub magnet_infos: Vec<MagnetInfo>,
    pub magnets: Vec<String>,
}

/// The URIs of a magnet-info list, in order.
pub open spec fn urls_of(infos: Seq<MagnetInfo>) -> Seq<Seq<char>> {
    infos.map_values(|mi: MagnetInfo| mi.url@)
}

pub proof fn lemma_urls_of_index(infos: Seq<MagnetInfo>)
    ensures
        urls_of(infos).len() == infos.len(),
        forall|i: int| 0 <= i < infos.len() ==> urls_of(infos)[i] == (#[trigger] infos[i]).url@,
{
}

/// A sequence of texts without a repeated value.
pub open spec fn texts_distinct(ss: Seq<Seq<char>>) -> bool {
    forall|i: int, j: int| 0 <= i < j < ss.len() ==> ss[i] != ss[j]
}

/// A strictly ascending sequence of texts.
pub open spec fn texts_sorted(ss: Seq<Seq<char>>) -> bool {
    forall|i: int, j: int| 0 <= i < j < ss.len() ==> lex_lt(ss[i], ss[j])
}

impl AvDetail {
    /// The two magnet collections never diverge: same length, and the
    /// info at each position carries exactly the URI at that position.
    pub open spec fn magnets_in_sync(self) -> bool {
        &&& self.magnet_infos@.len() == self.magnets@.len()
        &&& forall|i: int|
            0 <= i < self.magnets@.len() ==> (#[trigger] self.magnet_infos@[i]).url@
                == self.magnets.deep_view()[i]
    }

    /// No magnet URI appears twice.
    pub open spec fn magnets_distinct(self) -> bool {
        texts_distinct(self.magnets.deep_view())
    }

    /// The genre list is strictly ascending, hence free of duplicates.
    pub open spec fn genres_sorted(self) -> bool {
        texts_sorted(self.genres.deep_view())
    }

    /// Well-formedness every constructor establishes and every merge
    /// preserves.
    pub open spec fn wf(self) -> bool {
        self.magnets_in_sync() && self.magnets_distinct() && self.genres_sorted()
    }
}

} // verus!
