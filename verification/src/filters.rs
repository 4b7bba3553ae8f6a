//! Event filters: the query language of relays and caches. A filter lists
//! the kinds, authors, identifiers and tag references it accepts; an empty
//! list accepts anything in that dimension.

use vstd::prelude::*;

use crate::events::{
    event_identifier_view, referenced_event_ids, tag_first_values, Event, EventView,
};
use crate::strings::{seqs_intersect, vec_contains_str, vecs_intersect};

verus! {

/// A filter over events. An empty list leaves that dimension unconstrained.
pub struct Filter {
    /// Accepted event kinds.
    pub kinds: Vec<u16>,
    /// Accepted author keys, hex encoded.
    pub authors: Vec<String>,
    /// Accepted `d` tag identifiers.
    pub identifiers: Vec<String>,
    /// Accepted `e` tag references to event ids.
    pub event_refs: Vec<String>,
    /// Accepted `a` tag references to coordinates.
    pub coord_refs: Vec<String>,
}

/// The mathematical shape of a filter.
pub struct FilterView {
    pub kinds: Seq<u16>,
    pub authors: Seq<Seq<char>>,
    pub identifiers: Seq<Seq<char>>,
    pub event_refs: Seq<Seq<char>>,
    pub coord_refs: Seq<Seq<char>>,
}

impl View for Filter {
    type V = FilterView;

    open spec fn view(&self) -> FilterView {
        FilterView {
            kinds: self.kinds@,
            authors: self.authors.deep_view(),
            identifiers: self.identifiers.deep_view(),
            event_refs: self.event_refs.deep_view(),
            coord_refs: self.coord_refs.deep_view(),
        }
    }
}

impl DeepView for Filter {
    type V = FilterView;

    open spec fn deep_view(&self) -> FilterView {
        self.view()
    }
}

impl Filter {
    /// A filter that accepts every event.
    pub fn any() -> (r: Filter)
        ensures
            r@.kinds.len() == 0,
            r@.authors.len() == 0,
            r@.identifiers.len() == 0,
            r@.event_refs.len() == 0,
            r@.coord_refs.len() == 0,
    {
        Filter {
            kinds: Vec::new(),
            authors: Vec::new(),
            identifiers: Vec::new(),
            event_refs: Vec::new(),
            coord_refs: Vec::new(),
        }
    }
}

/// Whether an event passes a filter: every non-empty dimension of the filter
/// accepts the event.
pub open spec fn filter_matches(f: FilterView, e: EventView) -> bool {
    &&& f.kinds.len() == 0 || f.kinds.contains(e.kind)
    &&& f.authors.len() == 0 || f.authors.contains(e.pubkey)
    &&& f.identifiers.len() == 0 || (event_identifier_view(e) matches Some(d)
        && f.identifiers.contains(d))
    &&& f.event_refs.len() == 0 || seqs_intersect(referenced_event_ids(e.tags), f.event_refs)
    &&& f.coord_refs.len() == 0 || seqs_intersect(tag_first_values(e.tags, "a"@), f.coord_refs)
}

/// Whether an event passes any of the filters.
pub open spec fn matches_any_filter(filters: Seq<FilterView>, e: EventView) -> bool {
    exists|i: int| 0 <= i < filters.len() && filter_matches(filters[i], e)
}

fn vec_contains_u16(v: &Vec<u16>, x: u16) -> (r: bool)
    ensures
        r == v@.contains(x),
{
    let n = v.len();
    let mut i: usize = 0;
    while i < n
        invariant
            i <= n,
            n == v.len(),
            forall|k: int| 0 <= k < i ==> v@[k] != x,
        decreases n - i,
    {
        if v[i] == x {
            return true;
        }
        i += 1;
    }
    false
}

/// Whether an event passes a filter.
pub fn event_matches_filter(f: &Filter, e: &Event) -> (r: bool)
    ensures
        r == filter_matches(f@, e@),
{
    if f.kinds.len() > 0 && !vec_contains_u16(&f.kinds, e.kind) {
        return false;
    }
    if f.authors.len() > 0 && !vec_contains_str(&f.authors, e.pubkey.as_str()) {
        return false;
    }
    if f.identifiers.len() > 0 {
        let d = crate::events::event_identifier(e);
        match d {
            Some(d) => {
                if !vec_contains_str(&f.identifiers, d.as_str()) {
                    return false;
                }
            },
            None => {
                return false;
            },
        }
    }
    if f.event_refs.len() > 0 {
        let refs = crate::events::event_id_refs(e);
        if !vecs_intersect(&refs, &f.event_refs) {
            return false;
        }
    }
    if f.coord_refs.len() > 0 {
        let coords = crate::events::tag_values(e, "a");
        if !vecs_intersect(&coords, &f.coord_refs) {
            return false;
        }
    }
    true
}

/// Whether an event passes any of the filters.
pub fn event_matches_any_filter(filters: &Vec<Filter>, e: &Event) -> (r: bool)
    ensures
        r == matches_any_filter(filters.deep_view(), e@),
{
    let n = filters.len();
    let mut i: usize = 0;
    while i < n
        invariant
            i <= n,
            n == filters.len(),
            forall|k: int| 0 <= k < i ==> !filter_matches(filters.deep_view()[k], e@),
        decreases n - i,
    {
        if event_matches_filter(&filters[i], e) {
            assert(filters.deep_view()[i as int] == filters@[i as int]@);
            return true;
        }
        assert(filters.deep_view()[i as int] == filters@[i as int]@);
        i += 1;
    }
    false
}

} // verus!
