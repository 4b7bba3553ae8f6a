//! The fetch orchestrator: the filters one relay round asks with, the
//! classification of each fetched event, the per-relay fixpoint state, the
//! consolidation of per-relay reports, and the report a fetch shows the
//! user.

use vstd::prelude::*;

use crate::cache::{cache_contains_id, spec_save, CacheError, EventCache};
use crate::events::{
    event_identifier_view, event_valid, event_is_patch_set_root, is_patch_set_root, is_status_kind,
    referenced_event_ids, tag_first_values, Event, EventView, EVENT_DELETION_KIND, METADATA_KIND,
    PATCH_KIND, RELAY_LIST_KIND, REPO_REF_KIND, STATUS_APPLIED_KIND, STATUS_CLOSED_KIND,
    STATUS_DRAFT_KIND, STATUS_OPEN_KIND,
};
use crate::filters::{filter_matches, matches_any_filter, Filter, FilterView};
use crate::repo_ref::{coordinate_string, Coordinate, CoordinateView};
use crate::strings::{
    dec_digits, join_with_commas_view, join_with_commas, seqs_intersect, u64_to_decimal,
};

verus! {

/// One announcement update seen during a fetch: the coordinate it renews
/// and the announcement's creation time.
pub struct AnnouncementUpdate {
    pub coordinate: Coordinate,
    pub timestamp: u64,
}

/// A coordinate the fetch asks about, with the creation time of the latest
/// announcement already cached for it, if any.
pub struct CoordinateState {
    pub coordinate: Coordinate,
    pub last_timestamp: Option<u64>,
}

/// What one fetch round discovered: new maintainer coordinates, renewals of
/// known announcements, and the new proposals, commits, statuses and
/// profiles, by id or key.
pub struct FetchReport {
    /// The relay this report covers, where it covers one.
    pub relay: Option<String>,
    /// Coordinates of maintainers not asked about before.
    pub repo_coordinates: Vec<Coordinate>,
    /// Known coordinates whose announcement advanced, with the new time.
    pub updated_repo_announcements: Vec<AnnouncementUpdate>,
    /// Ids of new proposal roots.
    pub proposals: Vec<String>,
    /// Ids of new patches against known proposals.
    pub commits: Vec<String>,
    /// Ids of new status events.
    pub statuses: Vec<String>,
    /// Keys of contributors whose profiles arrived.
    pub contributor_profiles: Vec<String>,
}

impl FetchReport {
    /// A report with nothing in it, covering `relay` if one is given.
    pub fn empty(relay: Option<String>) -> (r: FetchReport)
        ensures
            r.relay == relay,
            r.repo_coordinates@.len() == 0,
            r.updated_repo_announcements@.len() == 0,
            r.proposals@.len() == 0,
            r.commits@.len() == 0,
            r.statuses@.len() == 0,
            r.contributor_profiles@.len() == 0,
    {
        FetchReport {
            relay,
            repo_coordinates: Vec::new(),
            updated_repo_announcements: Vec::new(),
            proposals: Vec::new(),
            commits: Vec::new(),
            statuses: Vec::new(),
            contributor_profiles: Vec::new(),
        }
    }

    /// Whether the fetch found nothing.
    pub fn is_empty(&self) -> (r: bool)
        ensures
            r == (self.repo_coordinates@.len() == 0 && self.updated_repo_announcements@.len() == 0
                && self.proposals@.len() == 0 && self.commits@.len() == 0 && self.statuses@.len()
                == 0 && self.contributor_profiles@.len() == 0),
    {
        self.repo_coordinates.len() == 0 && self.updated_repo_announcements.len() == 0
            && self.proposals.len() == 0 && self.commits.len() == 0 && self.statuses.len() == 0
            && self.contributor_profiles.len() == 0
    }
}

/// One summary item: the count, a space, and the unit in the right number.
pub open spec fn count_phrase(n: nat, singular: Seq<char>, plural: Seq<char>) -> Seq<char> {
    dec_digits(n) + " "@ + if n == 1 {
        singular
    } else {
        plural
    }
}

/// The items of a report's summary, one per non-empty count.
pub open spec fn report_parts(r: FetchReport) -> Seq<Seq<char>> {
    let a: Seq<Seq<char>> = if r.repo_coordinates@.len() > 0 {
        seq![count_phrase(r.repo_coordinates@.len(), "new maintainer"@, "new maintainers"@)]
    } else {
        Seq::empty()
    };
    let b: Seq<Seq<char>> = if r.updated_repo_announcements@.len() > 0 {
        seq![
            count_phrase(
                r.updated_repo_announcements@.len(),
                "announcement update"@,
                "announcement updates"@,
            ),
        ]
    } else {
        Seq::empty()
    };
    let c: Seq<Seq<char>> = if r.proposals@.len() > 0 {
        seq![count_phrase(r.proposals@.len(), "proposal"@, "proposals"@)]
    } else {
        Seq::empty()
    };
    let d: Seq<Seq<char>> = if r.commits@.len() > 0 {
        seq![count_phrase(r.commits@.len(), "commit"@, "commits"@)]
    } else {
        Seq::empty()
    };
    let e: Seq<Seq<char>> = if r.statuses@.len() > 0 {
        seq![count_phrase(r.statuses@.len(), "status"@, "statuses"@)]
    } else {
        Seq::empty()
    };
    let f: Seq<Seq<char>> = if r.contributor_profiles@.len() > 0 {
        seq![
            count_phrase(
                r.contributor_profiles@.len(),
                "contributor profile"@,
                "contributor profiles"@,
            ),
        ]
    } else {
        Seq::empty()
    };
    a + b + c + d + e + f
}

/// The one-line summary of a report.
pub open spec fn summary_view(r: FetchReport) -> Seq<char> {
    join_with_commas_view(report_parts(r))
}

fn push_count_phrase(parts: &mut Vec<String>, n: usize, singular: &str, plural: &str)
    ensures
        final(parts).deep_view() == old(parts).deep_view().push(
            count_phrase(n as nat, singular@, plural@),
        ),
{
    let ghost prev = parts.deep_view();
    let mut s = u64_to_decimal(n as u64);
    s.append(" ");
    if n == 1 {
        s.append(singular);
    } else {
        s.append(plural);
    }
    parts.push(s);
    proof {
        assert forall|k: int| 0 <= k < parts@.len() implies #[trigger] parts.deep_view()[k]
            == prev.push(count_phrase(n as nat, singular@, plural@))[k] by {
            if k < prev.len() {
                assert(parts.deep_view()[k] == prev[k]);
            } else {
                assert(parts.deep_view()[k] == count_phrase(n as nat, singular@, plural@));
            }
        }
        assert(parts.deep_view() =~= prev.push(count_phrase(n as nat, singular@, plural@)));
    }
}

impl FetchReport {
    /// The summary the user sees, such as
    /// `1 new maintainer, 2 proposals, 3 commits`; empty when the fetch
    /// found nothing.
    pub fn summary(&self) -> (r: String)
        ensures
            r@ == summary_view(*self),
    {
        let mut parts: Vec<String> = Vec::new();
        assert(parts.deep_view() =~= Seq::<Seq<char>>::empty());
        if self.repo_coordinates.len() > 0 {
            push_count_phrase(
                &mut parts,
                self.repo_coordinates.len(),
                "new maintainer",
                "new maintainers",
            );
        }
        if self.updated_repo_announcements.len() > 0 {
            push_count_phrase(
                &mut parts,
                self.updated_repo_announcements.len(),
                "announcement update",
                "announcement updates",
            );
        }
        if self.proposals.len() > 0 {
            push_count_phrase(&mut parts, self.proposals.len(), "proposal", "proposals");
        }
        if self.commits.len() > 0 {
            push_count_phrase(&mut parts, self.commits.len(), "commit", "commits");
        }
        if self.statuses.len() > 0 {
            push_count_phrase(&mut parts, self.statuses.len(), "status", "statuses");
        }
        if self.contributor_profiles.len() > 0 {
            push_count_phrase(
                &mut parts,
                self.contributor_profiles.len(),
                "contributor profile",
                "contributor profiles",
            );
        }
        proof {
            assert(parts.deep_view() =~= report_parts(*self));
        }
        join_with_commas(&parts)
    }
}


/// The identifiers of a coordinate list.
pub open spec fn coord_identifiers(coords: Seq<CoordinateView>) -> Seq<Seq<char>> {
    coords.map_values(|c: CoordinateView| c.identifier)
}

/// The author keys of a coordinate list.
pub open spec fn coord_pubkeys(coords: Seq<CoordinateView>) -> Seq<Seq<char>> {
    coords.map_values(|c: CoordinateView| c.public_key)
}

/// The wire forms of a coordinate list.
pub open spec fn coord_strings_of(coords: Seq<CoordinateView>) -> Seq<Seq<char>> {
    coords.map_values(|c: CoordinateView| coordinate_string(c))
}

/// What one fetch round asks a relay for: announcements at the asked
/// coordinates, patches and deletions referencing any asked coordinate,
/// patches, deletions and statuses referencing any known proposal root, and
/// profile events of any required author.
pub open spec fn fetch_relevant(
    e: EventView,
    coords: Seq<CoordinateView>,
    proposals: Seq<Seq<char>>,
    profiles: Seq<Seq<char>>,
) -> bool {
    ||| (coords.len() > 0 && e.kind == REPO_REF_KIND && (event_identifier_view(e) matches Some(d)
        && coord_identifiers(coords).contains(d)) && coord_pubkeys(coords).contains(e.pubkey))
    ||| (coords.len() > 0 && (e.kind == PATCH_KIND || e.kind == EVENT_DELETION_KIND)
        && seqs_intersect(tag_first_values(e.tags, "a"@), coord_strings_of(coords)))
    ||| (proposals.len() > 0 && (e.kind == PATCH_KIND || e.kind == EVENT_DELETION_KIND
        || is_status_kind(e.kind)) && seqs_intersect(referenced_event_ids(e.tags), proposals))
    ||| (profiles.len() > 0 && (e.kind == METADATA_KIND || e.kind == RELAY_LIST_KIND)
        && profiles.contains(e.pubkey))
}

proof fn lemma_matches_any_push(s: Seq<FilterView>, f: FilterView, e: EventView)
    ensures
        matches_any_filter(s.push(f), e) == (matches_any_filter(s, e) || filter_matches(f, e)),
{
    if matches_any_filter(s.push(f), e) {
        let i = choose|i: int| 0 <= i < s.push(f).len() && filter_matches(s.push(f)[i], e);
        if i < s.len() {
            assert(s[i] == s.push(f)[i]);
            assert(matches_any_filter(s, e));
        } else {
            assert(s.push(f)[i] == f);
        }
    }
    if matches_any_filter(s, e) {
        let i = choose|i: int| 0 <= i < s.len() && filter_matches(s[i], e);
        assert(s.push(f)[i] == s[i]);
        assert(matches_any_filter(s.push(f), e));
    }
    if filter_matches(f, e) {
        assert(s.push(f)[s.len() as int] == f);
        assert(matches_any_filter(s.push(f), e));
    }
}

/// The wire forms of a coordinate list.
fn coordinate_strings_for(coords: &Vec<Coordinate>) -> (r: Vec<String>)
    ensures
        r.deep_view() == coord_strings_of(coords.deep_view()),
{
    let n = coords.len();
    let mut r: Vec<String> = Vec::new();
    let mut i: usize = 0;
    while i < n
        invariant
            i <= n,
            n == coords@.len(),
            r@.len() == i,
            forall|k: int|
                0 <= k < i ==> #[trigger] r.deep_view()[k] == coordinate_string(
                    coords.deep_view()[k],
                ),
        decreases n - i,
    {
        let ghost prev = r.deep_view();
        let s = coords[i].to_string_form();
        r.push(s);
        proof {
            assert(coords.deep_view()[i as int] == coords@[i as int]@);
            assert forall|k: int| 0 <= k < i + 1 implies #[trigger] r.deep_view()[k]
                == coordinate_string(coords.deep_view()[k]) by {
                if k < i {
                    assert(r.deep_view()[k] == prev[k]);
                } else {
                    assert(r.deep_view()[k] == s@);
                }
            }
        }
        i += 1;
    }
    assert(r.deep_view() =~= coord_strings_of(coords.deep_view()));
    r
}

/// The filter asking for announcements at these coordinates: the
/// announcement kind, restricted to the coordinates' identifiers and
/// authors.
pub fn get_filter_repo_events(repo_coordinates: &Vec<Coordinate>) -> (r: Filter)
    ensures
        r@.kinds == seq![REPO_REF_KIND],
        r@.identifiers == coord_identifiers(repo_coordinates.deep_view()),
        r@.authors == coord_pubkeys(repo_coordinates.deep_view()),
        r@.event_refs.len() == 0,
        r@.coord_refs.len() == 0,
{
    let mut kinds: Vec<u16> = Vec::new();
    kinds.push(REPO_REF_KIND);
    let n = repo_coordinates.len();
    let mut identifiers: Vec<String> = Vec::new();
    let mut authors: Vec<String> = Vec::new();
    let mut i: usize = 0;
    while i < n
        invariant
            i <= n,
            n == repo_coordinates@.len(),
            identifiers@.len() == i,
            authors@.len() == i,
            forall|k: int|
                0 <= k < i ==> #[trigger] identifiers.deep_view()[k]
                    == repo_coordinates.deep_view()[k].identifier,
            forall|k: int|
                0 <= k < i ==> #[trigger] authors.deep_view()[k]
                    == repo_coordinates.deep_view()[k].public_key,
        decreases n - i,
    {
        let ghost previ = identifiers.deep_view();
        let ghost preva = authors.deep_view();
        let ident = repo_coordinates[i].identifier.clone();
        let author = repo_coordinates[i].public_key.clone();
        identifiers.push(ident);
        authors.push(author);
        proof {
            assert(repo_coordinates.deep_view()[i as int] == repo_coordinates@[i as int]@);
            assert forall|k: int| 0 <= k < i + 1 implies #[trigger] identifiers.deep_view()[k]
                == repo_coordinates.deep_view()[k].identifier by {
                if k < i {
                    assert(identifiers.deep_view()[k] == previ[k]);
                }
            }
            assert forall|k: int| 0 <= k < i + 1 implies #[trigger] authors.deep_view()[k]
                == repo_coordinates.deep_view()[k].public_key by {
                if k < i {
                    assert(authors.deep_view()[k] == preva[k]);
                }
            }
        }
        i += 1;
    }
    let mut f = Filter::any();
    f.kinds = kinds;
    f.identifiers = identifiers;
    f.authors = authors;
    proof {
        assert(f@.kinds =~= seq![REPO_REF_KIND]);
        assert(f@.identifiers =~= coord_identifiers(repo_coordinates.deep_view()));
        assert(f@.authors =~= coord_pubkeys(repo_coordinates.deep_view()));
    }
    f
}

/// The filters of one fetch round, from the coordinates, proposal roots and
/// required profile authors known so far. An event passes them exactly when
/// the round must ask for it.
pub fn get_fetch_filters(
    repo_coordinates: &Vec<Coordinate>,
    proposal_ids: &Vec<String>,
    required_profiles: &Vec<String>,
) -> (r: Vec<Filter>)
    ensures
        forall|e: EventView|
            #[trigger] matches_any_filter(r.deep_view(), e) == fetch_relevant(
                e,
                repo_coordinates.deep_view(),
                proposal_ids.deep_view(),
                required_profiles.deep_view(),
            ),
        r@.len() == (if repo_coordinates@.len() > 0 {
            2int
        } else {
            0int
        }) + (if proposal_ids@.len() > 0 {
            1int
        } else {
            0int
        }) + (if required_profiles@.len() > 0 {
            1int
        } else {
            0int
        }),
{
    let ghost coords = repo_coordinates.deep_view();
    let ghost props = proposal_ids.deep_view();
    let ghost profs = required_profiles.deep_view();
    let mut r: Vec<Filter> = Vec::new();
    proof {
        assert forall|e: EventView| !matches_any_filter(r.deep_view(), e) by {
            assert(r.deep_view().len() == 0);
        }
    }

    if repo_coordinates.len() > 0 {
        let f1 = get_filter_repo_events(repo_coordinates);
        let ghost f1v = f1@;
        r.push(f1);
        let mut f2 = Filter::any();
        let mut kinds2: Vec<u16> = Vec::new();
        kinds2.push(PATCH_KIND);
        kinds2.push(EVENT_DELETION_KIND);
        f2.kinds = kinds2;
        f2.coord_refs = coordinate_strings_for(repo_coordinates);
        let ghost f2v = f2@;
        r.push(f2);
        proof {
            assert(r.deep_view() =~= seq![f1v, f2v]);
        }
    }
    let ghost rdv1 = r.deep_view();
    if proposal_ids.len() > 0 {
        let mut f3 = Filter::any();
        let mut kinds3: Vec<u16> = Vec::new();
        kinds3.push(PATCH_KIND);
        kinds3.push(EVENT_DELETION_KIND);
        kinds3.push(STATUS_OPEN_KIND);
        kinds3.push(STATUS_APPLIED_KIND);
        kinds3.push(STATUS_CLOSED_KIND);
        kinds3.push(STATUS_DRAFT_KIND);
        f3.kinds = kinds3;
        f3.event_refs = crate::events::clone_string_vec(proposal_ids);
        let ghost f3v = f3@;
        let ghost before = r.deep_view();
        r.push(f3);
        proof {
            assert forall|k: int| 0 <= k < r@.len() implies #[trigger] r.deep_view()[k]
                == before.push(f3v)[k] by {
                if k < before.len() {
                    assert(r.deep_view()[k] == before[k]);
                } else {
                    assert(r.deep_view()[k] == f3v);
                }
            }
            assert(r.deep_view() =~= before.push(f3v));
        }
    }
    let ghost rdv2 = r.deep_view();
    if required_profiles.len() > 0 {
        let mut f4 = Filter::any();
        let mut kinds4: Vec<u16> = Vec::new();
        kinds4.push(METADATA_KIND);
        kinds4.push(RELAY_LIST_KIND);
        f4.kinds = kinds4;
        f4.authors = crate::events::clone_string_vec(required_profiles);
        let ghost f4v = f4@;
        let ghost before = r.deep_view();
        r.push(f4);
        proof {
            assert forall|k: int| 0 <= k < r@.len() implies #[trigger] r.deep_view()[k]
                == before.push(f4v)[k] by {
                if k < before.len() {
                    assert(r.deep_view()[k] == before[k]);
                } else {
                    assert(r.deep_view()[k] == f4v);
                }
            }
            assert(r.deep_view() =~= before.push(f4v));
        }
    }
    proof {
        assert forall|e: EventView| #[trigger] matches_any_filter(r.deep_view(), e)
            == fetch_relevant(e, coords, props, profs) by {
            let disj1 = coords.len() > 0 && e.kind == REPO_REF_KIND && (event_identifier_view(e)
                matches Some(d) && coord_identifiers(coords).contains(d)) && coord_pubkeys(
                coords,
            ).contains(e.pubkey);
            let disj2 = coords.len() > 0 && (e.kind == PATCH_KIND || e.kind
                == EVENT_DELETION_KIND) && seqs_intersect(
                tag_first_values(e.tags, "a"@),
                coord_strings_of(coords),
            );
            let disj3 = props.len() > 0 && (e.kind == PATCH_KIND || e.kind == EVENT_DELETION_KIND
                || is_status_kind(e.kind)) && seqs_intersect(referenced_event_ids(e.tags), props);
            let disj4 = profs.len() > 0 && (e.kind == METADATA_KIND || e.kind == RELAY_LIST_KIND)
                && profs.contains(e.pubkey);
            if coords.len() > 0 {
                let f1v = rdv1[0];
                let f2v = rdv1[1];
                assert(filter_matches(f1v, e) == disj1) by {
                    assert(f1v.kinds == seq![REPO_REF_KIND]);
                    assert(f1v.kinds[0] == REPO_REF_KIND);
                    assert(f1v.identifiers == coord_identifiers(coords));
                    assert(f1v.authors == coord_pubkeys(coords));
                    assert(f1v.identifiers.len() == coords.len());
                    assert(f1v.authors.len() == coords.len());
                    if filter_matches(f1v, e) {
                        assert(f1v.kinds.contains(e.kind));
                    }
                    if disj1 {
                        assert(f1v.kinds.contains(e.kind));
                        assert(filter_matches(f1v, e));
                    }
                }
                assert(filter_matches(f2v, e) == disj2) by {
                    assert(f2v.kinds =~= seq![PATCH_KIND, EVENT_DELETION_KIND]);
                    assert(f2v.coord_refs == coord_strings_of(coords));
                    assert(f2v.coord_refs.len() == coords.len());
                    assert(f2v.authors.len() == 0 && f2v.identifiers.len() == 0
                        && f2v.event_refs.len() == 0);
                    if filter_matches(f2v, e) {
                        assert(f2v.kinds.contains(e.kind));
                        let ki = choose|ki: int| 0 <= ki < f2v.kinds.len() && f2v.kinds[ki]
                            == e.kind;
                        assert(e.kind == PATCH_KIND || e.kind == EVENT_DELETION_KIND);
                    }
                    if disj2 {
                        assert(f2v.kinds[0] == PATCH_KIND && f2v.kinds[1] == EVENT_DELETION_KIND);
                        assert(f2v.kinds.contains(e.kind));
                        assert(filter_matches(f2v, e));
                    }
                }
            }
            if props.len() > 0 {
                let f3v = rdv2[rdv2.len() - 1];
                assert(filter_matches(f3v, e) == disj3) by {
                    assert(f3v.kinds =~= seq![
                        PATCH_KIND,
                        EVENT_DELETION_KIND,
                        STATUS_OPEN_KIND,
                        STATUS_APPLIED_KIND,
                        STATUS_CLOSED_KIND,
                        STATUS_DRAFT_KIND,
                    ]);
                    assert(f3v.event_refs == props);
                    assert(f3v.authors.len() == 0 && f3v.identifiers.len() == 0
                        && f3v.coord_refs.len() == 0);
                    if filter_matches(f3v, e) {
                        assert(f3v.kinds.contains(e.kind));
                        let ki = choose|ki: int| 0 <= ki < f3v.kinds.len() && f3v.kinds[ki]
                            == e.kind;
                        assert(e.kind == PATCH_KIND || e.kind == EVENT_DELETION_KIND
                            || is_status_kind(e.kind));
                    }
                    if disj3 {
                        assert(f3v.kinds[0] == PATCH_KIND && f3v.kinds[1] == EVENT_DELETION_KIND
                            && f3v.kinds[2] == STATUS_OPEN_KIND && f3v.kinds[3]
                            == STATUS_APPLIED_KIND && f3v.kinds[4] == STATUS_CLOSED_KIND
                            && f3v.kinds[5] == STATUS_DRAFT_KIND);
                        assert(f3v.kinds.contains(e.kind));
                        assert(filter_matches(f3v, e));
                    }
                }
            }
            if profs.len() > 0 {
                let f4v = r.deep_view()[r.deep_view().len() - 1];
                assert(filter_matches(f4v, e) == disj4) by {
                    assert(f4v.kinds =~= seq![METADATA_KIND, RELAY_LIST_KIND]);
                    assert(f4v.authors == profs);
                    assert(f4v.identifiers.len() == 0 && f4v.event_refs.len() == 0
                        && f4v.coord_refs.len() == 0);
                    if filter_matches(f4v, e) {
                        assert(f4v.kinds.contains(e.kind));
                        let ki = choose|ki: int| 0 <= ki < f4v.kinds.len() && f4v.kinds[ki]
                            == e.kind;
                        assert(e.kind == METADATA_KIND || e.kind == RELAY_LIST_KIND);
                    }
                    if disj4 {
                        assert(f4v.kinds[0] == METADATA_KIND && f4v.kinds[1] == RELAY_LIST_KIND);
                        assert(f4v.kinds.contains(e.kind));
                        assert(filter_matches(f4v, e));
                    }
                }
            }
            if matches_any_filter(r.deep_view(), e) {
                let i = choose|i: int|
                    0 <= i < r.deep_view().len() && filter_matches(r.deep_view()[i], e);
                if i < rdv1.len() {
                    assert(rdv1[i] == r.deep_view()[i]);
                    assert(disj1 || disj2);
                } else if i < rdv2.len() {
                    assert(rdv2[i] == r.deep_view()[i]);
                    assert(i == rdv2.len() - 1);
                    assert(disj3);
                } else {
                    assert(disj4);
                }
                assert(fetch_relevant(e, coords, props, profs));
            }
            if fetch_relevant(e, coords, props, profs) {
                if disj1 {
                    assert(r.deep_view()[0] == rdv1[0]);
                    assert(filter_matches(r.deep_view()[0], e));
                } else if disj2 {
                    assert(r.deep_view()[1] == rdv1[1]);
                    assert(filter_matches(r.deep_view()[1], e));
                } else if disj3 {
                    assert(r.deep_view()[rdv2.len() - 1] == rdv2[rdv2.len() - 1]);
                    assert(filter_matches(r.deep_view()[rdv2.len() - 1], e));
                } else {
                    assert(filter_matches(r.deep_view()[r.deep_view().len() - 1], e));
                }
                assert(matches_any_filter(r.deep_view(), e));
            }
        }
    }
    r
}


/// The mathematical shape of a coordinate with its last known timestamp.
pub struct CoordinateStateView {
    pub coordinate: CoordinateView,
    pub last_timestamp: Option<u64>,
}

impl View for CoordinateState {
    type V = CoordinateStateView;

    open spec fn view(&self) -> CoordinateStateView {
        CoordinateStateView { coordinate: self.coordinate@, last_timestamp: self.last_timestamp }
    }
}

impl DeepView for CoordinateState {
    type V = CoordinateStateView;

    open spec fn deep_view(&self) -> CoordinateStateView {
        self.view()
    }
}

/// The mathematical shape of an announcement update.
pub struct AnnouncementUpdateView {
    pub coordinate: CoordinateView,
    pub timestamp: u64,
}

impl View for AnnouncementUpdate {
    type V = AnnouncementUpdateView;

    open spec fn view(&self) -> AnnouncementUpdateView {
        AnnouncementUpdateView { coordinate: self.coordinate@, timestamp: self.timestamp }
    }
}

impl DeepView for AnnouncementUpdate {
    type V = AnnouncementUpdateView;

    open spec fn deep_view(&self) -> AnnouncementUpdateView {
        self.view()
    }
}

impl AnnouncementUpdate {
    /// An owned copy of the update entry.
    pub fn duplicate(&self) -> (r: AnnouncementUpdate)
        ensures
            r@ == self@,
    {
        AnnouncementUpdate { coordinate: self.coordinate.duplicate(), timestamp: self.timestamp }
    }
}

/// What a fetch round asks for and what it already has: the coordinates with
/// their last known announcement times, the known proposal roots, the
/// authors whose profiles are wanted, and the ids already cached.
pub struct FetchRequest {
    /// Width of the relay column in progress output.
    pub relay_column_width: usize,
    /// The coordinates asked about.
    pub repo_coordinates: Vec<CoordinateState>,
    /// Ids of the proposal roots known before the fetch.
    pub proposals: Vec<String>,
    /// Authors whose profile events are wanted.
    pub contributor_profiles: Vec<String>,
    /// Ids of the events already cached, to skip cheaply.
    pub existing_events: Vec<String>,
}

/// The request already asks about this identifier under this author.
pub open spec fn request_covers(
    req: Seq<CoordinateStateView>,
    identifier: Seq<char>,
    pubkey: Seq<char>,
) -> bool {
    exists|i: int|
        0 <= i < req.len() && (#[trigger] req[i]).coordinate.identifier == identifier
            && req[i].coordinate.public_key == pubkey
}

/// The announcement at this identifier and author advances a coordinate the
/// request knew with an older timestamp.
pub open spec fn request_advanced(
    req: Seq<CoordinateStateView>,
    identifier: Seq<char>,
    pubkey: Seq<char>,
    t: u64,
) -> bool {
    exists|i: int|
        0 <= i < req.len() && (#[trigger] req[i]).coordinate.identifier == identifier
            && req[i].coordinate.public_key == pubkey && (req[i].last_timestamp matches Some(t0)
            && t > t0)
}

/// A coordinate list holds this coordinate.
pub open spec fn coords_contain(s: Seq<CoordinateView>, c: CoordinateView) -> bool {
    exists|i: int| 0 <= i < s.len() && s[i] == c
}

fn request_covers_exec(req: &Vec<CoordinateState>, identifier: &str, pubkey: &str) -> (r: bool)
    ensures
        r == request_covers(req.deep_view(), identifier@, pubkey@),
{
    let n = req.len();
    let mut i: usize = 0;
    while i < n
        invariant
            i <= n,
            n == req@.len(),
            forall|k: int|
                0 <= k < i ==> !((#[trigger] req.deep_view()[k]).coordinate.identifier
                    == identifier@ && req.deep_view()[k].coordinate.public_key == pubkey@),
        decreases n - i,
    {
        assert(req.deep_view()[i as int] == req@[i as int]@);
        if crate::strings::str_eq(req[i].coordinate.identifier.as_str(), identifier)
            && crate::strings::str_eq(req[i].coordinate.public_key.as_str(), pubkey) {
            return true;
        }
        i += 1;
    }
    false
}

fn request_advanced_exec(req: &Vec<CoordinateState>, identifier: &str, pubkey: &str, t: u64) -> (r:
    bool)
    ensures
        r == request_advanced(req.deep_view(), identifier@, pubkey@, t),
{
    let n = req.len();
    let mut i: usize = 0;
    while i < n
        invariant
            i <= n,
            n == req@.len(),
            forall|k: int|
                0 <= k < i ==> !((#[trigger] req.deep_view()[k]).coordinate.identifier
                    == identifier@ && req.deep_view()[k].coordinate.public_key == pubkey@ && (
                req.deep_view()[k].last_timestamp matches Some(t0)
                    && t > t0)),
        decreases n - i,
    {
        assert(req.deep_view()[i as int] == req@[i as int]@);
        if crate::strings::str_eq(req[i].coordinate.identifier.as_str(), identifier)
            && crate::strings::str_eq(req[i].coordinate.public_key.as_str(), pubkey) {
            if let Some(t0) = req[i].last_timestamp {
                if t > t0 {
                    return true;
                }
            }
        }
        i += 1;
    }
    false
}

/// Add a coordinate to a list that acts as a set.
fn push_unique_coord(v: &mut Vec<Coordinate>, c: Coordinate)
    ensures
        coords_contain(final(v).deep_view(), c@),
        forall|y: CoordinateView|
            coords_contain(old(v).deep_view(), y) ==> coords_contain(final(v).deep_view(), y),
        forall|y: CoordinateView|
            coords_contain(final(v).deep_view(), y) ==> coords_contain(old(v).deep_view(), y) || y
                == c@,
        (forall|p: int, q: int|
            0 <= p < q < old(v).deep_view().len() ==> old(v).deep_view()[p]
                != old(v).deep_view()[q]) ==> (forall|p: int, q: int|
            0 <= p < q < final(v).deep_view().len() ==> final(v).deep_view()[p]
                != final(v).deep_view()[q]),
{
    let ghost prev = v.deep_view();
    let n = v.len();
    let mut i: usize = 0;
    while i < n
        invariant
            i <= n,
            n == v@.len(),
            v.deep_view() == prev,
            forall|k: int| 0 <= k < i ==> prev[k] != c@,
        decreases n - i,
    {
        assert(v.deep_view()[i as int] == v@[i as int]@);
        if v[i].same_as(&c) {
            assert(coords_contain(prev, c@));
            return ;
        }
        i += 1;
    }
    v.push(c);
    proof {
        assert forall|k: int| 0 <= k < v@.len() implies #[trigger] v.deep_view()[k] == prev.push(
            c@,
        )[k] by {
            if k < prev.len() {
                assert(v.deep_view()[k] == prev[k]);
            } else {
                assert(v.deep_view()[k] == c@);
            }
        }
        assert(v.deep_view() =~= prev.push(c@));
        assert(v.deep_view()[prev.len() as int] == c@);
        assert forall|y: CoordinateView| coords_contain(prev, y) implies coords_contain(
            v.deep_view(),
            y,
        ) by {
            let ii = choose|ii: int| 0 <= ii < prev.len() && prev[ii] == y;
            assert(v.deep_view()[ii] == y);
        }
        if forall|p: int, q: int| 0 <= p < q < prev.len() ==> prev[p] != prev[q] {
            assert forall|p: int, q: int|
                0 <= p < q < v.deep_view().len() implies v.deep_view()[p]
                != v.deep_view()[q] by {
                if q == prev.len() {
                    assert(v.deep_view()[q] == c@);
                    assert(v.deep_view()[p] == prev[p]);
                    if prev[p] == c@ {
                        assert(coords_contain(prev, c@));
                    }
                } else {
                    assert(v.deep_view()[p] == prev[p] && v.deep_view()[q] == prev[q]);
                }
            }
        }
    }
}

fn push_string(v: &mut Vec<String>, s: String)
    ensures
        final(v).deep_view() == old(v).deep_view().push(s@),
{
    let ghost prev = v.deep_view();
    let ghost sv = s@;
    v.push(s);
    proof {
        assert forall|k: int| 0 <= k < v@.len() implies #[trigger] v.deep_view()[k] == prev.push(
            sv,
        )[k] by {
            if k < prev.len() {
                assert(v.deep_view()[k] == prev[k]);
            } else {
                assert(v.deep_view()[k] == sv);
            }
        }
        assert(v.deep_view() =~= prev.push(sv));
    }
}

fn push_coord(v: &mut Vec<Coordinate>, c: Coordinate)
    ensures
        final(v).deep_view() == old(v).deep_view().push(c@),
{
    let ghost prev = v.deep_view();
    let ghost cv = c@;
    v.push(c);
    proof {
        assert forall|k: int| 0 <= k < v@.len() implies #[trigger] v.deep_view()[k] == prev.push(
            cv,
        )[k] by {
            if k < prev.len() {
                assert(v.deep_view()[k] == prev[k]);
            } else {
                assert(v.deep_view()[k] == cv);
            }
        }
        assert(v.deep_view() =~= prev.push(cv));
    }
}

fn push_update_entry(v: &mut Vec<AnnouncementUpdate>, u: AnnouncementUpdate)
    ensures
        final(v).deep_view() == old(v).deep_view().push(u@),
{
    let ghost prev = v.deep_view();
    let ghost uv = u@;
    v.push(u);
    proof {
        assert forall|k: int| 0 <= k < v@.len() implies #[trigger] v.deep_view()[k] == prev.push(
            uv,
        )[k] by {
            if k < prev.len() {
                assert(v.deep_view()[k] == prev[k]);
            } else {
                assert(v.deep_view()[k] == uv);
            }
        }
        assert(v.deep_view() =~= prev.push(uv));
    }
}


/// The coordinate of a maintainer key under an identifier, at the
/// announcement kind.
pub open spec fn announcement_coord(identifier: Seq<char>, pubkey: Seq<char>) -> CoordinateView {
    CoordinateView { kind: REPO_REF_KIND, public_key: pubkey, identifier: identifier }
}

/// Classify one fetched event and record it. An event already cached is
/// skipped whole. A new event must verify and is saved in the repository
/// cache; an announcement or a profile is mirrored into the global cache.
/// An announcement yields fresh coordinates for its unknown maintainers and
/// report entries for a new or an advanced coordinate; a patch-set root
/// yields a fresh proposal root; a patch referencing a known proposal, a
/// status, or a profile is counted in the report.
pub fn process_fetched_event(
    event: &Event,
    request: &FetchRequest,
    local: &mut EventCache,
    global: &mut EventCache,
    fresh_coordinates: &mut Vec<Coordinate>,
    fresh_proposal_roots: &mut Vec<String>,
    report: &mut FetchReport,
) -> (r: Result<(), CacheError>)
    requires
        old(local).wf(),
        old(global).wf(),
    ensures
        final(local).wf(),
        final(global).wf(),
        match r {
            Err(ce) => {
                &&& ce == CacheError::Integrity
                &&& !event_valid(event@)
                &&& !request.existing_events.deep_view().contains(event@.id)
                &&& !cache_contains_id(old(local)@, event@.id)
                &&& final(local)@ == old(local)@
                &&& final(global)@ == old(global)@
                &&& final(fresh_coordinates).deep_view() == old(fresh_coordinates).deep_view()
                &&& final(fresh_proposal_roots).deep_view() == old(
                    fresh_proposal_roots,
                ).deep_view()
                &&& *final(report) == *old(report)
            },
            Ok(u) => ({
                let processed = !request.existing_events.deep_view().contains(event@.id)
                    && !cache_contains_id(old(local)@, event@.id);
                let req = request.repo_coordinates.deep_view();
                let ident = event_identifier_view(event@);
                let announcing = processed && event@.kind == REPO_REF_KIND && ident is Some;
                let rooting = processed && event@.kind != REPO_REF_KIND && is_patch_set_root(
                    event@,
                );
                let committing = processed && event@.kind == PATCH_KIND && !is_patch_set_root(
                    event@,
                ) && (seqs_intersect(
                    referenced_event_ids(event@.tags),
                    request.proposals.deep_view(),
                ) || seqs_intersect(
                    referenced_event_ids(event@.tags),
                    old(report).proposals.deep_view(),
                ));
                let stating = processed && event@.kind != REPO_REF_KIND && !is_patch_set_root(
                    event@,
                ) && event@.kind != PATCH_KIND && is_status_kind(event@.kind);
                let profiling = processed && event@.kind == METADATA_KIND;
                &&& processed ==> event_valid(event@)
                &&& final(local)@ == (if processed {
                    spec_save(old(local)@, event@)
                } else {
                    old(local)@
                })
                &&& final(global)@ == (if processed && (event@.kind == REPO_REF_KIND || event@.kind
                    == METADATA_KIND) {
                    spec_save(old(global)@, event@)
                } else {
                    old(global)@
                })
                &&& final(fresh_proposal_roots).deep_view() == (if rooting {
                    old(fresh_proposal_roots).deep_view().push(event@.id)
                } else {
                    old(fresh_proposal_roots).deep_view()
                })
                &&& final(report).proposals.deep_view() == (if rooting {
                    old(report).proposals.deep_view().push(event@.id)
                } else {
                    old(report).proposals.deep_view()
                })
                &&& final(report).commits.deep_view() == (if committing {
                    old(report).commits.deep_view().push(event@.id)
                } else {
                    old(report).commits.deep_view()
                })
                &&& final(report).statuses.deep_view() == (if stating {
                    old(report).statuses.deep_view().push(event@.id)
                } else {
                    old(report).statuses.deep_view()
                })
                &&& final(report).contributor_profiles.deep_view() == (if profiling {
                    old(report).contributor_profiles.deep_view().push(event@.pubkey)
                } else {
                    old(report).contributor_profiles.deep_view()
                })
                &&& final(report).relay == old(report).relay
                &&& final(report).repo_coordinates.deep_view() == (if announcing
                    && !request_covers(req, ident.unwrap(), event@.pubkey) {
                    old(report).repo_coordinates.deep_view().push(
                        announcement_coord(ident.unwrap(), event@.pubkey),
                    )
                } else {
                    old(report).repo_coordinates.deep_view()
                })
                &&& final(report).updated_repo_announcements.deep_view() == (if announcing
                    && request_covers(req, ident.unwrap(), event@.pubkey) && request_advanced(
                    req,
                    ident.unwrap(),
                    event@.pubkey,
                    event@.created_at,
                ) {
                    old(report).updated_repo_announcements.deep_view().push(
                        AnnouncementUpdateView {
                            coordinate: announcement_coord(ident.unwrap(), event@.pubkey),
                            timestamp: event@.created_at,
                        },
                    )
                } else {
                    old(report).updated_repo_announcements.deep_view()
                })
                &&& !announcing ==> final(fresh_coordinates).deep_view() == old(
                    fresh_coordinates,
                ).deep_view()
                &&& announcing ==> {
                    let d = ident.unwrap();
                    &&& (!request_covers(req, d, event@.pubkey) ==> coords_contain(
                        final(fresh_coordinates).deep_view(),
                        announcement_coord(d, event@.pubkey),
                    ))
                    &&& forall|m: Seq<char>|
                        crate::events::tag_rest_values(event@.tags, "maintainers"@).contains(m)
                            && !request_covers(req, d, m) ==> coords_contain(
                            final(fresh_coordinates).deep_view(),
                            announcement_coord(d, m),
                        )
                    &&& forall|y: CoordinateView|
                        coords_contain(old(fresh_coordinates).deep_view(), y) ==> coords_contain(
                            final(fresh_coordinates).deep_view(),
                            y,
                        )
                    &&& forall|y: CoordinateView|
                        coords_contain(final(fresh_coordinates).deep_view(), y) ==> coords_contain(
                            old(fresh_coordinates).deep_view(),
                            y,
                        ) || (y.kind == REPO_REF_KIND && y.identifier == d && (y.public_key
                            == event@.pubkey || crate::events::tag_rest_values(
                            event@.tags,
                            "maintainers"@,
                        ).contains(y.public_key)))
                }
            }),
        },
{
    if crate::strings::vec_contains_str(&request.existing_events, event.id.as_str())
        || local.contains_id(event.id.as_str()) {
        return Ok(());
    }
    if let Err(ce) = local.save_event(event) {
        return Err(ce);
    }
    if event.kind == REPO_REF_KIND {
        let mirror = global.save_event(event);
        proof {
            assert(mirror is Ok);
        }
        let ident = crate::events::event_identifier(event);
        if let Some(d) = ident {
            let is_new = !request_covers_exec(
                &request.repo_coordinates,
                d.as_str(),
                event.pubkey.as_str(),
            );
            if is_new {
                let c = Coordinate {
                    kind: REPO_REF_KIND,
                    public_key: event.pubkey.clone(),
                    identifier: d.clone(),
                };
                push_unique_coord(fresh_coordinates, c.duplicate());
                push_coord(&mut report.repo_coordinates, c);
            } else {
                let advanced = request_advanced_exec(
                    &request.repo_coordinates,
                    d.as_str(),
                    event.pubkey.as_str(),
                    event.created_at,
                );
                if advanced {
                    let c = Coordinate {
                        kind: REPO_REF_KIND,
                        public_key: event.pubkey.clone(),
                        identifier: d.clone(),
                    };
                    push_update_entry(
                        &mut report.updated_repo_announcements,
                        AnnouncementUpdate { coordinate: c, timestamp: event.created_at },
                    );
                }
            }
            let tagged = crate::events::tag_multi_values(event, "maintainers");
            let ghost tagged_view = tagged.deep_view();
            let ghost mid_fresh = fresh_coordinates.deep_view();
            let nt = tagged.len();
            let mut t: usize = 0;
            while t < nt
                invariant
                    t <= nt,
                    nt == tagged@.len(),
                    tagged.deep_view() == tagged_view,
                    forall|k: int|
                        0 <= k < t && !request_covers(
                            request.repo_coordinates.deep_view(),
                            d@,
                            #[trigger] tagged_view[k],
                        ) ==> coords_contain(
                            fresh_coordinates.deep_view(),
                            announcement_coord(d@, tagged_view[k]),
                        ),
                    forall|y: CoordinateView|
                        coords_contain(mid_fresh, y) ==> coords_contain(
                            fresh_coordinates.deep_view(),
                            y,
                        ),
                    forall|y: CoordinateView|
                        coords_contain(fresh_coordinates.deep_view(), y) ==> coords_contain(
                            mid_fresh,
                            y,
                        ) || (y.kind == REPO_REF_KIND && y.identifier == d@
                            && tagged_view.contains(y.public_key)),
                decreases nt - t,
            {
                assert(tagged_view[t as int] == tagged@[t as int]@);
                if !request_covers_exec(
                    &request.repo_coordinates,
                    d.as_str(),
                    tagged[t].as_str(),
                ) {
                    let c = Coordinate {
                        kind: REPO_REF_KIND,
                        public_key: tagged[t].clone(),
                        identifier: d.clone(),
                    };
                    assert(c@ == announcement_coord(d@, tagged_view[t as int]));
                    push_unique_coord(fresh_coordinates, c);
                    proof {
                        assert(tagged_view.contains(tagged_view[t as int]));
                    }
                }
                t += 1;
            }
        }
        return Ok(());
    }
    if event_is_patch_set_root(event) {
        push_string(fresh_proposal_roots, event.id.clone());
        push_string(&mut report.proposals, event.id.clone());
        return Ok(());
    }
    if event.kind == PATCH_KIND {
        let refs = crate::events::event_id_refs(event);
        let known = crate::strings::vecs_intersect(&refs, &request.proposals)
            || crate::strings::vecs_intersect(&refs, &report.proposals);
        if known {
            push_string(&mut report.commits, event.id.clone());
        }
        return Ok(());
    }
    let status = event.kind == STATUS_OPEN_KIND || event.kind == STATUS_APPLIED_KIND || event.kind
        == STATUS_CLOSED_KIND || event.kind == STATUS_DRAFT_KIND;
    if status {
        push_string(&mut report.statuses, event.id.clone());
        return Ok(());
    }
    if event.kind == METADATA_KIND {
        let mirror = global.save_event(event);
        proof {
            assert(mirror is Ok);
        }
        push_string(&mut report.contributor_profiles, event.pubkey.clone());
        return Ok(());
    }
    Ok(())
}


/// Two reports carry the same contents.
pub open spec fn same_report(a: FetchReport, b: FetchReport) -> bool {
    &&& a.relay.deep_view() == b.relay.deep_view()
    &&& a.repo_coordinates.deep_view() == b.repo_coordinates.deep_view()
    &&& a.updated_repo_announcements.deep_view() == b.updated_repo_announcements.deep_view()
    &&& a.proposals.deep_view() == b.proposals.deep_view()
    &&& a.commits.deep_view() == b.commits.deep_view()
    &&& a.statuses.deep_view() == b.statuses.deep_view()
    &&& a.contributor_profiles.deep_view() == b.contributor_profiles.deep_view()
}

/// Some event of the batch carries this id.
pub open spec fn batch_has_event_id(evs: Seq<EventView>, id: Seq<char>) -> bool {
    exists|k: int| 0 <= k < evs.len() && (#[trigger] evs[k]).id == id
}

/// Some event of the batch has this author key.
pub open spec fn batch_has_author(evs: Seq<EventView>, x: Seq<char>) -> bool {
    exists|k: int| 0 <= k < evs.len() && (#[trigger] evs[k]).pubkey == x
}

/// Some announcement of the batch gives rise to this coordinate: it carries
/// the coordinate's identifier, and the key is its author or one its
/// maintainers tag lists.
pub open spec fn batch_names_coordinate(evs: Seq<EventView>, y: CoordinateView) -> bool {
    exists|k: int|
        0 <= k < evs.len() && (#[trigger] evs[k]).kind == REPO_REF_KIND && event_identifier_view(
            evs[k],
        ) == Some(y.identifier) && (y.public_key == evs[k].pubkey
            || crate::events::tag_rest_values(evs[k].tags, "maintainers"@).contains(y.public_key))
}

/// Some announcement of the batch renews this coordinate at this time.
pub open spec fn batch_dates_update(evs: Seq<EventView>, u: AnnouncementUpdateView) -> bool {
    exists|k: int|
        0 <= k < evs.len() && (#[trigger] evs[k]).kind == REPO_REF_KIND && event_identifier_view(
            evs[k],
        ) == Some(u.coordinate.identifier) && evs[k].pubkey == u.coordinate.public_key
            && evs[k].created_at == u.timestamp
}

/// A saved valid event's id is in the cache.
proof fn lemma_spec_save_has_own(c: Seq<EventView>, e: EventView)
    requires
        event_valid(e),
    ensures
        cache_contains_id(spec_save(c, e), e.id),
{
    if !cache_contains_id(c, e.id) {
        crate::cache::lemma_insert_pos_bounds(c, e.created_at);
        let pos = crate::cache::insert_pos(c, e.created_at);
        assert(c.insert(pos, e)[pos] == e);
    } else {
        crate::cache::lemma_spec_save_preserves_ids(c, e, e.id);
    }
}

/// The coordinates a request asks about, without their timestamps.
pub open spec fn coords_of_states(s: Seq<CoordinateStateView>) -> Seq<CoordinateView> {
    s.map_values(|c: CoordinateStateView| c.coordinate)
}

/// The fixpoint state of one relay's fetch: the request, the fresh
/// coordinates, proposal roots and authors the next round must ask about,
/// and the report of what this relay yielded so far. The relay round itself
/// — sending the filters, reading events back — belongs to the caller; the
/// state says what to ask and ingests what came back, and the fetch is done
/// when nothing fresh remains.
pub struct RelayFetchState {
    pub request: FetchRequest,
    pub fresh_coordinates: Vec<Coordinate>,
    pub fresh_proposal_roots: Vec<String>,
    pub fresh_authors: Vec<String>,
    pub report: FetchReport,
}

impl RelayFetchState {
    /// Start a fetch against one relay: the first round asks about
    /// everything the request names.
    pub fn begin(relay_url: Option<String>, request: FetchRequest) -> (r: RelayFetchState)
        ensures
            r.request == request,
            r.report.relay == relay_url,
            r.report.repo_coordinates@.len() == 0,
            r.report.updated_repo_announcements@.len() == 0,
            r.report.proposals@.len() == 0,
            r.report.commits@.len() == 0,
            r.report.statuses@.len() == 0,
            r.report.contributor_profiles@.len() == 0,
            r.fresh_coordinates.deep_view() == coords_of_states(request.repo_coordinates.deep_view()),
            r.fresh_proposal_roots.deep_view() == request.proposals.deep_view(),
            r.fresh_authors.deep_view() == request.contributor_profiles.deep_view(),
    {
        let n = request.repo_coordinates.len();
        let mut fresh_coordinates: Vec<Coordinate> = Vec::new();
        let mut i: usize = 0;
        while i < n
            invariant
                i <= n,
                n == request.repo_coordinates@.len(),
                fresh_coordinates@.len() == i,
                forall|k: int|
                    0 <= k < i ==> #[trigger] fresh_coordinates.deep_view()[k]
                        == request.repo_coordinates.deep_view()[k].coordinate,
            decreases n - i,
        {
            let c = request.repo_coordinates[i].coordinate.duplicate();
            let ghost prev = fresh_coordinates.deep_view();
            fresh_coordinates.push(c);
            proof {
                assert(request.repo_coordinates.deep_view()[i as int]
                    == request.repo_coordinates@[i as int]@);
                assert forall|k: int| 0 <= k < i + 1 implies #[trigger] fresh_coordinates
                    .deep_view()[k] == request.repo_coordinates.deep_view()[k].coordinate by {
                    if k < i {
                        assert(fresh_coordinates.deep_view()[k] == prev[k]);
                    }
                }
            }
            i += 1;
        }
        let fresh_proposal_roots = crate::events::clone_string_vec(&request.proposals);
        let fresh_authors = crate::events::clone_string_vec(&request.contributor_profiles);
        let report = FetchReport::empty(relay_url);
        proof {
            assert(fresh_coordinates.deep_view() =~= coords_of_states(
                request.repo_coordinates.deep_view(),
            ));
        }
        RelayFetchState { request, fresh_coordinates, fresh_proposal_roots, fresh_authors, report }
    }

    /// The filters the next round sends: everything relevant to the fresh
    /// coordinates, proposal roots and authors.
    pub fn next_filters(&self) -> (r: Vec<Filter>)
        ensures
            forall|e: EventView|
                #[trigger] matches_any_filter(r.deep_view(), e) == fetch_relevant(
                    e,
                    self.fresh_coordinates.deep_view(),
                    self.fresh_proposal_roots.deep_view(),
                    self.fresh_authors.deep_view(),
                ),
    {
        get_fetch_filters(&self.fresh_coordinates, &self.fresh_proposal_roots, &self.fresh_authors)
    }

    /// Whether the fixpoint is reached: nothing fresh remains to ask about.
    pub fn is_done(&self) -> (r: bool)
        ensures
            r == (self.fresh_coordinates@.len() == 0 && self.fresh_proposal_roots@.len() == 0),
    {
        self.fresh_coordinates.len() == 0 && self.fresh_proposal_roots.len() == 0
    }

    /// Ingest one round's events: each event the request did not know and
    /// the cache does not hold is verified, cached — announcements and
    /// profiles also in the global cache — and classified, gathering the
    /// next round's fresh coordinates and proposal roots and the report of
    /// what arrived.
    ///
    /// The fetch fixpoint: when the relay returned only events the request
    /// or the cache already knew — as it does once the remote state is
    /// unchanged since the last fetch — the round changes nothing, the
    /// report stays as it was, and the fetch is done.
    pub fn ingest(
        &mut self,
        events: &Vec<Event>,
        local: &mut EventCache,
        global: &mut EventCache,
    ) -> (r: Result<(), CacheError>)
        requires
            old(local).wf(),
            old(global).wf(),
        ensures
            final(local).wf(),
            final(global).wf(),
            final(self).request == old(self).request,
            final(self).report.relay == old(self).report.relay,
            r is Ok ==> final(self).fresh_authors@.len() == 0,
            (forall|k: int|
                0 <= k < events.deep_view().len()
                    ==> old(self).request.existing_events.deep_view().contains(
                    (#[trigger] events.deep_view()[k]).id,
                ) || cache_contains_id(old(local)@, events.deep_view()[k].id)) ==> {
                &&& r is Ok
                &&& final(local)@ == old(local)@
                &&& final(global)@ == old(global)@
                &&& same_report(final(self).report, old(self).report)
                &&& final(self).fresh_coordinates@.len() == 0
                &&& final(self).fresh_proposal_roots@.len() == 0
            },
            r is Ok ==> ({
                let evs = events.deep_view();
                let existing = old(self).request.existing_events.deep_view();
                // Every event the request did not know is cached afterwards,
                // and the caches grew only by ids the batch carried.
                &&& forall|k: int|
                    0 <= k < evs.len() && event_valid(#[trigger] evs[k]) && !existing.contains(
                        evs[k].id,
                    ) ==> cache_contains_id(final(local)@, evs[k].id)
                &&& forall|x: Seq<char>|
                    #[trigger] cache_contains_id(final(local)@, x) ==> cache_contains_id(
                        old(local)@,
                        x,
                    ) || batch_has_event_id(evs, x)
                &&& forall|x: Seq<char>|
                    #[trigger] cache_contains_id(final(global)@, x) ==> cache_contains_id(
                        old(global)@,
                        x,
                    ) || batch_has_event_id(evs, x)
                // A novel patch-set root — first of its id in the batch — is
                // asked about in the next round and reported.
                &&& forall|k: int|
                    #![trigger is_patch_set_root(evs[k])]
                    0 <= k < evs.len() && event_valid(evs[k]) && !existing.contains(evs[k].id)
                        && !cache_contains_id(old(local)@, evs[k].id) && (forall|k2: int|
                        0 <= k2 < k ==> (#[trigger] evs[k2]).id != evs[k].id) && evs[k].kind
                        != REPO_REF_KIND && is_patch_set_root(evs[k]) ==> final(self).fresh_proposal_roots.deep_view().contains(evs[k].id) && final(self).report.proposals.deep_view().contains(evs[k].id)
                // Nothing fresh or reported that the batch does not justify.
                &&& forall|id: Seq<char>|
                    #[trigger] final(self).fresh_proposal_roots.deep_view().contains(id)
                        ==> batch_has_event_id(evs, id)
                &&& forall|y: CoordinateView|
                    coords_contain(final(self).fresh_coordinates.deep_view(), y) ==> y.kind
                        == REPO_REF_KIND && batch_names_coordinate(evs, y)
                &&& forall|id: Seq<char>|
                    #[trigger] final(self).report.proposals.deep_view().contains(id) ==> old(self).report.proposals.deep_view().contains(id) || batch_has_event_id(evs, id)
                &&& forall|id: Seq<char>|
                    #[trigger] final(self).report.commits.deep_view().contains(id) ==> old(self).report.commits.deep_view().contains(id) || batch_has_event_id(evs, id)
                &&& forall|id: Seq<char>|
                    #[trigger] final(self).report.statuses.deep_view().contains(id) ==> old(self).report.statuses.deep_view().contains(id) || batch_has_event_id(evs, id)
                &&& forall|x: Seq<char>|
                    #[trigger] final(self).report.contributor_profiles.deep_view().contains(x)
                        ==> old(self).report.contributor_profiles.deep_view().contains(x)
                        || batch_has_author(evs, x)
                &&& forall|c: CoordinateView|
                    coords_contain(final(self).report.repo_coordinates.deep_view(), c)
                        ==> coords_contain(old(self).report.repo_coordinates.deep_view(), c) || (
                    c.kind == REPO_REF_KIND && batch_names_coordinate(evs, c))
                &&& forall|u: AnnouncementUpdateView|
                    #[trigger] final(self).report.updated_repo_announcements.deep_view().contains(
                        u,
                    ) ==> old(self).report.updated_repo_announcements.deep_view().contains(u)
                        || batch_dates_update(evs, u)
            }),
    {
        let ghost evs = events.deep_view();
        let ghost existing = self.request.existing_events.deep_view();
        self.fresh_coordinates = Vec::new();
        self.fresh_proposal_roots = Vec::new();
        self.fresh_authors = Vec::new();
        let ghost report0 = self.report;
        let ghost local0 = local@;
        let ghost global0 = global@;
        proof {
            assert(self.fresh_coordinates.deep_view() =~= Seq::<CoordinateView>::empty());
            assert(self.fresh_proposal_roots.deep_view() =~= Seq::<Seq<char>>::empty());
        }
        let n = events.len();
        let mut i: usize = 0;
        while i < n
            invariant
                i <= n,
                n == events@.len(),
                events.deep_view() == evs,
                local.wf(),
                global.wf(),
                self.request == old(self).request,
                existing == old(self).request.existing_events.deep_view(),
                self.report.relay == old(self).report.relay,
                report0 == old(self).report,
                self.fresh_authors@.len() == 0,
                (forall|k: int|
                    0 <= k < i ==> old(self).request.existing_events.deep_view().contains(
                        (#[trigger] events.deep_view()[k]).id,
                    ) || cache_contains_id(old(local)@, events.deep_view()[k].id)) ==> {
                    &&& local@ == old(local)@
                    &&& global@ == old(global)@
                    &&& same_report(self.report, old(self).report)
                    &&& self.fresh_coordinates@.len() == 0
                    &&& self.fresh_proposal_roots@.len() == 0
                },
                forall|x: Seq<char>|
                    cache_contains_id(local0, x) ==> #[trigger] cache_contains_id(local@, x),
                forall|k: int|
                    0 <= k < i && event_valid(#[trigger] evs[k]) && !existing.contains(evs[k].id)
                        ==> cache_contains_id(local@, evs[k].id),
                forall|x: Seq<char>|
                    #[trigger] cache_contains_id(local@, x) ==> cache_contains_id(local0, x) || (
                    exists|k: int| 0 <= k < i && (#[trigger] evs[k]).id == x),
                forall|x: Seq<char>|
                    #[trigger] cache_contains_id(global@, x) ==> cache_contains_id(global0, x) || (
                    exists|k: int| 0 <= k < i && (#[trigger] evs[k]).id == x),
                forall|k: int|
                    #![trigger is_patch_set_root(evs[k])]
                    0 <= k < i && event_valid(evs[k]) && !existing.contains(evs[k].id)
                        && !cache_contains_id(local0, evs[k].id) && (forall|k2: int|
                        0 <= k2 < k ==> (#[trigger] evs[k2]).id != evs[k].id) && evs[k].kind
                        != REPO_REF_KIND && is_patch_set_root(evs[k])
                        ==> self.fresh_proposal_roots.deep_view().contains(evs[k].id)
                        && self.report.proposals.deep_view().contains(evs[k].id),
                forall|id: Seq<char>|
                    #[trigger] self.fresh_proposal_roots.deep_view().contains(id) ==> exists|k: int|
                        0 <= k < i && (#[trigger] evs[k]).id == id,
                forall|y: CoordinateView|
                    coords_contain(self.fresh_coordinates.deep_view(), y) ==> y.kind
                        == REPO_REF_KIND && exists|k: int|
                        0 <= k < i && (#[trigger] evs[k]).kind == REPO_REF_KIND
                            && event_identifier_view(evs[k]) == Some(y.identifier) && (y.public_key
                            == evs[k].pubkey || crate::events::tag_rest_values(
                            evs[k].tags,
                            "maintainers"@,
                        ).contains(y.public_key)),
                forall|id: Seq<char>|
                    #[trigger] self.report.proposals.deep_view().contains(id)
                        ==> report0.proposals.deep_view().contains(id) || exists|k: int|
                        0 <= k < i && (#[trigger] evs[k]).id == id,
                forall|id: Seq<char>|
                    #[trigger] self.report.commits.deep_view().contains(id)
                        ==> report0.commits.deep_view().contains(id) || exists|k: int|
                        0 <= k < i && (#[trigger] evs[k]).id == id,
                forall|id: Seq<char>|
                    #[trigger] self.report.statuses.deep_view().contains(id)
                        ==> report0.statuses.deep_view().contains(id) || exists|k: int|
                        0 <= k < i && (#[trigger] evs[k]).id == id,
                forall|x: Seq<char>|
                    #[trigger] self.report.contributor_profiles.deep_view().contains(x)
                        ==> report0.contributor_profiles.deep_view().contains(x) || exists|k: int|
                        0 <= k < i && (#[trigger] evs[k]).pubkey == x,
                forall|c: CoordinateView|
                    coords_contain(self.report.repo_coordinates.deep_view(), c) ==> coords_contain(
                        report0.repo_coordinates.deep_view(),
                        c,
                    ) || (c.kind == REPO_REF_KIND && exists|k: int|
                        0 <= k < i && (#[trigger] evs[k]).kind == REPO_REF_KIND
                            && event_identifier_view(evs[k]) == Some(c.identifier) && (c.public_key
                            == evs[k].pubkey || crate::events::tag_rest_values(
                            evs[k].tags,
                            "maintainers"@,
                        ).contains(c.public_key))),
                forall|u: AnnouncementUpdateView|
                    #[trigger] self.report.updated_repo_announcements.deep_view().contains(u)
                        ==> report0.updated_repo_announcements.deep_view().contains(u) || exists|
                        k: int,
                    |
                        0 <= k < i && (#[trigger] evs[k]).kind == REPO_REF_KIND
                            && event_identifier_view(evs[k]) == Some(u.coordinate.identifier)
                            && evs[k].pubkey == u.coordinate.public_key && evs[k].created_at
                            == u.timestamp,
            decreases n - i,
        {
            assert(evs[i as int] == events@[i as int]@);
            let ghost rep_before = self.report;
            let ghost local_before = local@;
            let ghost global_before = global@;
            let ghost fresh_c_before = self.fresh_coordinates.deep_view();
            let ghost fresh_p_before = self.fresh_proposal_roots.deep_view();
            let outcome = process_fetched_event(
                &events[i],
                &self.request,
                local,
                global,
                &mut self.fresh_coordinates,
                &mut self.fresh_proposal_roots,
                &mut self.report,
            );
            if let Err(ce) = outcome {
                proof {
                    if forall|k: int|
                        0 <= k < events.deep_view().len()
                            ==> old(self).request.existing_events.deep_view().contains(
                            (#[trigger] events.deep_view()[k]).id,
                        ) || cache_contains_id(old(local)@, events.deep_view()[k].id) {
                        assert(forall|k: int|
                            0 <= k < i ==> old(self).request.existing_events.deep_view().contains(
                                (#[trigger] events.deep_view()[k]).id,
                            ) || cache_contains_id(old(local)@, events.deep_view()[k].id));
                        assert(local_before == old(local)@);
                        assert(old(self).request.existing_events.deep_view().contains(
                            events.deep_view()[i as int].id,
                        ) || cache_contains_id(old(local)@, events.deep_view()[i as int].id));
                        assert(events.deep_view()[i as int] == evs[i as int]);
                        assert(false);
                    }
                }
                return Err(ce);
            }
            proof {
                let ghost e = evs[i as int];
                let ghost processed = !existing.contains(e.id) && !cache_contains_id(
                    local_before,
                    e.id,
                );
                // The fixpoint round: a known event changes nothing.
                if forall|k: int|
                    0 <= k < i + 1 ==> old(self).request.existing_events.deep_view().contains(
                        (#[trigger] events.deep_view()[k]).id,
                    ) || cache_contains_id(old(local)@, events.deep_view()[k].id) {
                    assert(forall|k: int|
                        0 <= k < i ==> old(self).request.existing_events.deep_view().contains(
                            (#[trigger] events.deep_view()[k]).id,
                        ) || cache_contains_id(old(local)@, events.deep_view()[k].id));
                    assert(local_before == old(local)@);
                    assert(old(self).request.existing_events.deep_view().contains(
                        events.deep_view()[i as int].id,
                    ) || cache_contains_id(old(local)@, events.deep_view()[i as int].id));
                    assert(events.deep_view()[i as int] == evs[i as int]);
                    assert(!processed);
                    assert(local@ == local_before);
                    assert(global@ == global_before);
                    assert(self.fresh_coordinates.deep_view() == fresh_c_before);
                    assert(self.fresh_proposal_roots.deep_view() == fresh_p_before);
                    assert(same_report(self.report, rep_before));
                }
                // Cache monotonicity and growth soundness.
                assert forall|x: Seq<char>| cache_contains_id(local_before, x) implies #[trigger]
                cache_contains_id(local@, x) by {
                    if processed {
                        crate::cache::lemma_spec_save_preserves_ids(local_before, e, x);
                    }
                }
                assert forall|x: Seq<char>| #[trigger] cache_contains_id(local@, x)
                    implies cache_contains_id(local_before, x) || x == e.id by {
                    if processed {
                        crate::cache::lemma_spec_save_adds_only(local_before, e, x);
                    }
                }
                assert forall|x: Seq<char>| #[trigger] cache_contains_id(global@, x)
                    implies cache_contains_id(global_before, x) || x == e.id by {
                    if processed && (e.kind == REPO_REF_KIND || e.kind == METADATA_KIND) {
                        crate::cache::lemma_spec_save_adds_only(global_before, e, x);
                    }
                }
                if processed {
                    assert(event_valid(e));
                    lemma_spec_save_has_own(local_before, e);
                    assert(cache_contains_id(local@, e.id));
                } else if !existing.contains(e.id) && event_valid(e) {
                    assert(cache_contains_id(local_before, e.id));
                    assert(cache_contains_id(local@, e.id));
                }
                // Sequence fields only grow by pushes: membership carries.
                assert forall|id: Seq<char>| fresh_p_before.contains(id) implies #[trigger] self
                    .fresh_proposal_roots.deep_view().contains(id) by {
                    let ii = choose|ii: int|
                        0 <= ii < fresh_p_before.len() && fresh_p_before[ii] == id;
                    assert(self.fresh_proposal_roots.deep_view()[ii] == id);
                }
                assert forall|id: Seq<char>| rep_before.proposals.deep_view().contains(id)
                    implies #[trigger] self.report.proposals.deep_view().contains(id) by {
                    let ii = choose|ii: int|
                        0 <= ii < rep_before.proposals.deep_view().len()
                            && rep_before.proposals.deep_view()[ii] == id;
                    assert(self.report.proposals.deep_view()[ii] == id);
                }
                assert forall|id: Seq<char>| #[trigger] self.fresh_proposal_roots
                    .deep_view().contains(id) implies fresh_p_before.contains(id) || id
                    == e.id by {
                    let ii = choose|ii: int|
                        0 <= ii < self.fresh_proposal_roots.deep_view().len()
                            && self.fresh_proposal_roots.deep_view()[ii] == id;
                    if ii < fresh_p_before.len() {
                        assert(fresh_p_before[ii] == id);
                    }
                }
                assert forall|id: Seq<char>| #[trigger] self.report.proposals
                    .deep_view().contains(id) implies rep_before.proposals.deep_view().contains(
                    id,
                ) || id == e.id by {
                    let ii = choose|ii: int|
                        0 <= ii < self.report.proposals.deep_view().len()
                            && self.report.proposals.deep_view()[ii] == id;
                    if ii < rep_before.proposals.deep_view().len() {
                        assert(rep_before.proposals.deep_view()[ii] == id);
                    }
                }
                assert forall|id: Seq<char>| #[trigger] self.report.commits
                    .deep_view().contains(id) implies rep_before.commits.deep_view().contains(id)
                    || id == e.id by {
                    let ii = choose|ii: int|
                        0 <= ii < self.report.commits.deep_view().len()
                            && self.report.commits.deep_view()[ii] == id;
                    if ii < rep_before.commits.deep_view().len() {
                        assert(rep_before.commits.deep_view()[ii] == id);
                    }
                }
                assert forall|id: Seq<char>| #[trigger] self.report.statuses
                    .deep_view().contains(id) implies rep_before.statuses.deep_view().contains(id)
                    || id == e.id by {
                    let ii = choose|ii: int|
                        0 <= ii < self.report.statuses.deep_view().len()
                            && self.report.statuses.deep_view()[ii] == id;
                    if ii < rep_before.statuses.deep_view().len() {
                        assert(rep_before.statuses.deep_view()[ii] == id);
                    }
                }
                assert forall|x: Seq<char>| #[trigger] self.report.contributor_profiles
                    .deep_view().contains(x) implies rep_before.contributor_profiles
                    .deep_view().contains(x) || x == e.pubkey by {
                    let ii = choose|ii: int|
                        0 <= ii < self.report.contributor_profiles.deep_view().len()
                            && self.report.contributor_profiles.deep_view()[ii] == x;
                    if ii < rep_before.contributor_profiles.deep_view().len() {
                        assert(rep_before.contributor_profiles.deep_view()[ii] == x);
                    }
                }
                assert forall|c: CoordinateView| coords_contain(
                    self.report.repo_coordinates.deep_view(),
                    c,
                ) implies coords_contain(rep_before.repo_coordinates.deep_view(), c) || (c.kind
                    == REPO_REF_KIND && e.kind == REPO_REF_KIND && event_identifier_view(e)
                    == Some(c.identifier) && c.public_key == e.pubkey) by {
                    let ii = choose|ii: int|
                        0 <= ii < self.report.repo_coordinates.deep_view().len()
                            && self.report.repo_coordinates.deep_view()[ii] == c;
                    if ii < rep_before.repo_coordinates.deep_view().len() {
                        assert(rep_before.repo_coordinates.deep_view()[ii] == c);
                    }
                }
                assert forall|u: AnnouncementUpdateView| #[trigger] self.report
                    .updated_repo_announcements.deep_view().contains(u) implies rep_before
                    .updated_repo_announcements.deep_view().contains(u) || (u.coordinate.kind
                    == REPO_REF_KIND && e.kind == REPO_REF_KIND && event_identifier_view(e)
                    == Some(u.coordinate.identifier) && u.coordinate.public_key == e.pubkey
                    && u.timestamp == e.created_at) by {
                    let ii = choose|ii: int|
                        0 <= ii < self.report.updated_repo_announcements.deep_view().len()
                            && self.report.updated_repo_announcements.deep_view()[ii] == u;
                    if ii < rep_before.updated_repo_announcements.deep_view().len() {
                        assert(rep_before.updated_repo_announcements.deep_view()[ii] == u);
                    }
                }
                // The novel-root step: the first event of its id that roots a
                // proposal is pushed, and earlier ones stay pushed.
                assert forall|k: int|
                    #![trigger is_patch_set_root(evs[k])]
                    0 <= k < i + 1 && event_valid(evs[k]) && !existing.contains(evs[k].id)
                        && !cache_contains_id(local0, evs[k].id) && (forall|k2: int|
                        0 <= k2 < k ==> (#[trigger] evs[k2]).id != evs[k].id) && evs[k].kind
                        != REPO_REF_KIND && is_patch_set_root(
                        evs[k],
                    ) implies self.fresh_proposal_roots.deep_view().contains(evs[k].id)
                    && self.report.proposals.deep_view().contains(evs[k].id) by {
                    if k < i {
                        assert(fresh_p_before.contains(evs[k].id));
                        assert(rep_before.proposals.deep_view().contains(evs[k].id));
                    } else {
                        assert(!cache_contains_id(local_before, e.id)) by {
                            if cache_contains_id(local_before, e.id) {
                                assert(cache_contains_id(local0, e.id) || exists|k2: int|
                                    0 <= k2 < i && (#[trigger] evs[k2]).id == e.id);
                            }
                        }
                        assert(processed);
                        assert(self.fresh_proposal_roots.deep_view() == fresh_p_before.push(
                            e.id,
                        ));
                        assert(self.fresh_proposal_roots.deep_view()[fresh_p_before.len() as int]
                            == e.id);
                        assert(self.report.proposals.deep_view()[rep_before.proposals
                            .deep_view().len() as int] == e.id);
                    }
                }
            }
            i += 1;
        }
        Ok(())
    }
}


/// A deduplicated event list holds an event with this id.
pub open spec fn dedup_has_id(s: Seq<EventView>, id: Seq<char>) -> bool {
    exists|i: int| 0 <= i < s.len() && s[i].id == id
}

/// What one relay answered: its events, or nothing on a relay error.
pub open spec fn ok_events_of(r: Result<Vec<Event>, String>) -> Seq<EventView> {
    match r {
        Ok(events) => events.deep_view(),
        Err(_) => Seq::empty(),
    }
}

/// Some relay answered with an event of this id.
pub open spec fn some_relay_has_id(rs: Seq<Result<Vec<Event>, String>>, id: Seq<char>) -> bool {
    exists|i: int, j: int|
        #![trigger ok_events_of(rs[i])[j]]
        0 <= i < rs.len() && 0 <= j < ok_events_of(rs[i]).len() && ok_events_of(rs[i])[j].id == id
}

/// An event with this id sits earlier in the relay answers: at a lower relay
/// position, or earlier in the same relay's answer.
pub open spec fn occurs_before(
    rs: Seq<Result<Vec<Event>, String>>,
    i: int,
    j: int,
    id: Seq<char>,
) -> bool {
    exists|a: int, b: int|
        #![trigger ok_events_of(rs[a])[b]]
        0 <= a < rs.len() && 0 <= b < ok_events_of(rs[a]).len() && ok_events_of(rs[a])[b].id == id
            && (a < i || (a == i && b < j))
}

/// The event is the first occurrence of its id across the relay answers.
pub open spec fn first_occurrence_in(rs: Seq<Result<Vec<Event>, String>>, e: EventView) -> bool {
    exists|a: int, b: int|
        #![trigger ok_events_of(rs[a])[b]]
        0 <= a < rs.len() && 0 <= b < ok_events_of(rs[a]).len() && ok_events_of(rs[a])[b] == e
            && !occurs_before(rs, a, b, e.id)
}

/// Merge per-relay query results into one list with one event per id: the
/// first occurrence of each id, in relay order then arrival order, is the
/// instance kept.
pub fn get_dedup_events(relay_results: Vec<Result<Vec<Event>, String>>) -> (r: Vec<Event>)
    ensures
        forall|p: int, q: int|
            0 <= p < q < r.deep_view().len() ==> r.deep_view()[p].id != r.deep_view()[q].id,
        forall|id: Seq<char>|
            #[trigger] dedup_has_id(r.deep_view(), id) <==> some_relay_has_id(relay_results@, id),
        forall|p: int|
            0 <= p < r.deep_view().len() ==> first_occurrence_in(
                relay_results@,
                #[trigger] r.deep_view()[p],
            ),
{
    let ghost rs = relay_results@;
    let n = relay_results.len();
    let mut r: Vec<Event> = Vec::new();
    let mut i: usize = 0;
    while i < n
        invariant
            i <= n,
            n == relay_results@.len(),
            relay_results@ == rs,
            forall|p: int, q: int|
                0 <= p < q < r.deep_view().len() ==> r.deep_view()[p].id != r.deep_view()[q].id,
            forall|id: Seq<char>|
                #[trigger] dedup_has_id(r.deep_view(), id) <==> some_relay_has_id(
                    rs.take(i as int),
                    id,
                ),
            forall|p: int|
                0 <= p < r.deep_view().len() ==> first_occurrence_in(
                    rs,
                    #[trigger] r.deep_view()[p],
                ),
        decreases n - i,
    {
        let ghost prefix = rs.take(i as int);
        if let Ok(events) = &relay_results[i] {
            let ghost evs = events.deep_view();
            let m = events.len();
            let mut j: usize = 0;
            while j < m
                invariant
                    j <= m,
                    i < n,
                    n == relay_results@.len(),
                    relay_results@ == rs,
                    m == events@.len(),
                    events.deep_view() == evs,
                    rs[i as int] matches Ok(list) && list.deep_view() == evs,
                    forall|p: int, q: int|
                        0 <= p < q < r.deep_view().len() ==> r.deep_view()[p].id
                            != r.deep_view()[q].id,
                    forall|id: Seq<char>|
                        #[trigger] dedup_has_id(r.deep_view(), id) <==> (some_relay_has_id(
                            rs.take(i as int),
                            id,
                        ) || exists|k: int| 0 <= k < j && evs[k].id == id),
                    forall|p: int|
                        0 <= p < r.deep_view().len() ==> first_occurrence_in(
                            rs,
                            #[trigger] r.deep_view()[p],
                        ),
                decreases m - j,
            {
                assert(evs[j as int] == events@[j as int]@);
                let ghost prev = r.deep_view();
                if !dedup_contains_id(&r, events[j].id.as_str()) {
                    let x = events[j].duplicate();
                    r.push(x);
                    proof {
                        assert forall|k: int| 0 <= k < r@.len() implies #[trigger] r.deep_view()[k]
                            == prev.push(evs[j as int])[k] by {
                            if k < prev.len() {
                                assert(r.deep_view()[k] == prev[k]);
                            } else {
                                assert(r.deep_view()[k] == x@);
                            }
                        }
                        assert(r.deep_view() =~= prev.push(evs[j as int]));
                        // The pushed instance is the first of its id.
                        assert(!occurs_before(rs, i as int, j as int, evs[j as int].id)) by {
                            if occurs_before(rs, i as int, j as int, evs[j as int].id) {
                                let (a, b) = choose|a: int, b: int|
                                    #![trigger ok_events_of(rs[a])[b]]
                                    0 <= a < rs.len() && 0 <= b < ok_events_of(rs[a]).len()
                                        && ok_events_of(rs[a])[b].id == evs[j as int].id && (a < i
                                        || (a == i && b < j));
                                if a < i {
                                    assert(rs.take(i as int)[a] == rs[a]);
                                    assert(ok_events_of(rs.take(i as int)[a])[b].id
                                        == evs[j as int].id);
                                    assert(some_relay_has_id(rs.take(i as int), evs[j as int].id));
                                    assert(dedup_has_id(prev, evs[j as int].id));
                                } else {
                                    assert(ok_events_of(rs[i as int]) == evs);
                                    assert(evs[b].id == evs[j as int].id);
                                    assert(dedup_has_id(prev, evs[j as int].id));
                                }
                            }
                        }
                        assert(ok_events_of(rs[i as int])[j as int] == evs[j as int]);
                        assert(first_occurrence_in(rs, evs[j as int]));
                        assert forall|p: int|
                            0 <= p < r.deep_view().len() implies first_occurrence_in(
                            rs,
                            #[trigger] r.deep_view()[p],
                        ) by {
                            if p < prev.len() {
                                assert(r.deep_view()[p] == prev[p]);
                                assert(first_occurrence_in(rs, prev[p]));
                            } else {
                                assert(r.deep_view()[p] == evs[j as int]);
                            }
                        }
                        assert forall|id: Seq<char>| #[trigger] dedup_has_id(r.deep_view(), id)
                            implies (some_relay_has_id(rs.take(i as int), id) || exists|k: int|
                            0 <= k < j + 1 && evs[k].id == id) by {
                            let ii = choose|ii: int|
                                0 <= ii < r.deep_view().len() && r.deep_view()[ii].id == id;
                            if ii < prev.len() {
                                assert(dedup_has_id(prev, id));
                            } else {
                                assert(evs[j as int].id == id);
                            }
                        }
                        assert forall|id: Seq<char>|
                            some_relay_has_id(rs.take(i as int), id) || (exists|k: int|
                                0 <= k < j + 1 && evs[k].id == id) implies #[trigger] dedup_has_id(
                            r.deep_view(),
                            id,
                        ) by {
                            if some_relay_has_id(rs.take(i as int), id) || (exists|k: int|
                                0 <= k < j && evs[k].id == id) {
                                assert(dedup_has_id(prev, id));
                                let ii = choose|ii: int|
                                    0 <= ii < prev.len() && prev[ii].id == id;
                                assert(r.deep_view()[ii].id == id);
                            } else {
                                assert(r.deep_view()[prev.len() as int].id == id);
                            }
                        }
                    }
                } else {
                    proof {
                        assert forall|id: Seq<char>|
                            some_relay_has_id(rs.take(i as int), id) || (exists|k: int|
                                0 <= k < j + 1 && evs[k].id == id) implies #[trigger] dedup_has_id(
                            r.deep_view(),
                            id,
                        ) by {
                            if !(some_relay_has_id(rs.take(i as int), id) || (exists|k: int|
                                0 <= k < j && evs[k].id == id)) {
                                assert(evs[j as int].id == id);
                                assert(dedup_has_id(r.deep_view(), evs[j as int].id));
                            }
                        }
                    }
                }
                j += 1;
            }
            proof {
                assert forall|id: Seq<char>| #[trigger] dedup_has_id(r.deep_view(), id)
                    implies some_relay_has_id(rs.take(i + 1), id) by {
                    if some_relay_has_id(rs.take(i as int), id) {
                        let (a, b) = choose|a: int, b: int|
                            #![trigger ok_events_of(rs.take(i as int)[a])[b]]
                            0 <= a < rs.take(i as int).len() && 0 <= b < ok_events_of(
                                rs.take(i as int)[a],
                            ).len() && ok_events_of(rs.take(i as int)[a])[b].id == id;
                        assert(rs.take(i + 1)[a] == rs.take(i as int)[a]);
                        assert(ok_events_of(rs.take(i + 1)[a])[b].id == id);
                        assert(some_relay_has_id(rs.take(i + 1), id));
                    } else {
                        let k = choose|k: int| 0 <= k < evs.len() && evs[k].id == id;
                        assert(rs.take(i + 1)[i as int] == rs[i as int]);
                        assert(ok_events_of(rs.take(i + 1)[i as int])[k].id == id);
                        assert(some_relay_has_id(rs.take(i + 1), id));
                    }
                }
                assert forall|id: Seq<char>| some_relay_has_id(rs.take(i + 1), id)
                    implies #[trigger] dedup_has_id(r.deep_view(), id) by {
                    let (a, b) = choose|a: int, b: int|
                        #![trigger ok_events_of(rs.take(i + 1)[a])[b]]
                        0 <= a < rs.take(i + 1).len() && 0 <= b < ok_events_of(
                            rs.take(i + 1)[a],
                        ).len() && ok_events_of(rs.take(i + 1)[a])[b].id == id;
                    if a < i {
                        assert(rs.take(i as int)[a] == rs.take(i + 1)[a]);
                        assert(ok_events_of(rs.take(i as int)[a])[b].id == id);
                        assert(some_relay_has_id(rs.take(i as int), id));
                    } else {
                        assert(rs.take(i + 1)[a] == rs[i as int]);
                        assert(evs[b].id == id);
                    }
                }
            }
        } else {
            proof {
                assert forall|id: Seq<char>| #[trigger] dedup_has_id(r.deep_view(), id)
                    implies some_relay_has_id(rs.take(i + 1), id) by {
                    let (a, b) = choose|a: int, b: int|
                        #![trigger ok_events_of(rs.take(i as int)[a])[b]]
                        0 <= a < rs.take(i as int).len() && 0 <= b < ok_events_of(
                            rs.take(i as int)[a],
                        ).len() && ok_events_of(rs.take(i as int)[a])[b].id == id;
                    assert(rs.take(i + 1)[a] == rs.take(i as int)[a]);
                    assert(ok_events_of(rs.take(i + 1)[a])[b].id == id);
                    assert(some_relay_has_id(rs.take(i + 1), id));
                }
                assert forall|id: Seq<char>| some_relay_has_id(rs.take(i + 1), id)
                    implies #[trigger] dedup_has_id(r.deep_view(), id) by {
                    let (a, b) = choose|a: int, b: int|
                        #![trigger ok_events_of(rs.take(i + 1)[a])[b]]
                        0 <= a < rs.take(i + 1).len() && 0 <= b < ok_events_of(
                            rs.take(i + 1)[a],
                        ).len() && ok_events_of(rs.take(i + 1)[a])[b].id == id;
                    assert(a != i);
                    assert(rs.take(i as int)[a] == rs.take(i + 1)[a]);
                    assert(ok_events_of(rs.take(i as int)[a])[b].id == id);
                    assert(some_relay_has_id(rs.take(i as int), id));
                }
            }
        }
        i += 1;
    }
    assert(rs.take(n as int) =~= rs);
    r
}

fn dedup_contains_id(r: &Vec<Event>, id: &str) -> (b: bool)
    ensures
        b == dedup_has_id(r.deep_view(), id@),
{
    let n = r.len();
    let mut i: usize = 0;
    while i < n
        invariant
            i <= n,
            n == r@.len(),
            forall|k: int| 0 <= k < i ==> r.deep_view()[k].id != id@,
        decreases n - i,
    {
        assert(r.deep_view()[i as int] == r@[i as int]@);
        if crate::strings::str_eq(r[i].id.as_str(), id) {
            return true;
        }
        i += 1;
    }
    false
}


/// Some inner sequence holds `x`.
pub open spec fn flat_contains<T>(ss: Seq<Seq<T>>, x: T) -> bool {
    exists|i: int, j: int|
        #![trigger ss[i][j]]
        0 <= i < ss.len() && 0 <= j < ss[i].len() && ss[i][j] == x
}

pub(crate) proof fn lemma_flat_take_step<T>(ss: Seq<Seq<T>>, i: int)
    requires
        0 <= i < ss.len(),
    ensures
        forall|x: T|
            #[trigger] flat_contains(ss.take(i + 1), x) <==> (flat_contains(ss.take(i), x)
                || ss[i].contains(x)),
{
    assert forall|x: T| #[trigger] flat_contains(ss.take(i + 1), x) implies (flat_contains(
        ss.take(i),
        x,
    ) || ss[i].contains(x)) by {
        let (a, b) = choose|a: int, b: int|
            #![trigger ss.take(i + 1)[a][b]]
            0 <= a < ss.take(i + 1).len() && 0 <= b < ss.take(i + 1)[a].len() && ss.take(
                i + 1,
            )[a][b] == x;
        if a < i {
            assert(ss.take(i)[a] == ss.take(i + 1)[a]);
            assert(ss.take(i)[a][b] == x);
            assert(flat_contains(ss.take(i), x));
        } else {
            assert(ss.take(i + 1)[a] == ss[i]);
            assert(ss[i][b] == x);
        }
    }
    assert forall|x: T| (flat_contains(ss.take(i), x) || ss[i].contains(x))
        implies #[trigger] flat_contains(ss.take(i + 1), x) by {
        if flat_contains(ss.take(i), x) {
            let (a, b) = choose|a: int, b: int|
                #![trigger ss.take(i)[a][b]]
                0 <= a < ss.take(i).len() && 0 <= b < ss.take(i)[a].len() && ss.take(i)[a][b]
                    == x;
            assert(ss.take(i + 1)[a] == ss.take(i)[a]);
            assert(ss.take(i + 1)[a][b] == x);
        } else {
            let b = choose|b: int| 0 <= b < ss[i].len() && ss[i][b] == x;
            assert(ss.take(i + 1)[i] == ss[i]);
            assert(ss.take(i + 1)[i][b] == x);
        }
    }
}

/// The new-coordinate entries a per-relay result contributes.
pub open spec fn ok_report_coords(r: Result<FetchReport, String>) -> Seq<CoordinateView> {
    match r {
        Ok(rep) => rep.repo_coordinates.deep_view(),
        Err(_) => Seq::empty(),
    }
}

/// The announcement updates a per-relay result contributes.
pub open spec fn ok_report_updates(r: Result<FetchReport, String>) -> Seq<AnnouncementUpdateView> {
    match r {
        Ok(rep) => rep.updated_repo_announcements.deep_view(),
        Err(_) => Seq::empty(),
    }
}

/// The proposal ids a per-relay result contributes.
pub open spec fn ok_report_proposals(r: Result<FetchReport, String>) -> Seq<Seq<char>> {
    match r {
        Ok(rep) => rep.proposals.deep_view(),
        Err(_) => Seq::empty(),
    }
}

/// The commit ids a per-relay result contributes.
pub open spec fn ok_report_commits(r: Result<FetchReport, String>) -> Seq<Seq<char>> {
    match r {
        Ok(rep) => rep.commits.deep_view(),
        Err(_) => Seq::empty(),
    }
}

/// The status ids a per-relay result contributes.
pub open spec fn ok_report_statuses(r: Result<FetchReport, String>) -> Seq<Seq<char>> {
    match r {
        Ok(rep) => rep.statuses.deep_view(),
        Err(_) => Seq::empty(),
    }
}

/// The profile keys a per-relay result contributes.
pub open spec fn ok_report_profiles(r: Result<FetchReport, String>) -> Seq<Seq<char>> {
    match r {
        Ok(rep) => rep.contributor_profiles.deep_view(),
        Err(_) => Seq::empty(),
    }
}

/// An update entry for this coordinate and time is listed.
pub open spec fn has_update(s: Seq<AnnouncementUpdateView>, u: AnnouncementUpdateView) -> bool {
    s.contains(u)
}

/// Update entries carry distinct coordinates.
pub open spec fn updates_unique(s: Seq<AnnouncementUpdateView>) -> bool {
    forall|i: int, j: int| 0 <= i < j < s.len() ==> s[i].coordinate != s[j].coordinate
}

/// The list carries an entry for this update's coordinate at least as new.
pub open spec fn dominated(s: Seq<AnnouncementUpdateView>, u: AnnouncementUpdateView) -> bool {
    exists|u2: AnnouncementUpdateView|
        #[trigger] s.contains(u2) && u2.coordinate == u.coordinate && u2.timestamp >= u.timestamp
}

fn merge_string_set(acc: &mut Vec<String>, src: &Vec<String>)
    ensures
        forall|x: Seq<char>|
            #[trigger] final(acc).deep_view().contains(x) <==> (old(acc).deep_view().contains(x)
                || src.deep_view().contains(x)),
{
    let ghost sdv = src.deep_view();
    let n = src.len();
    let mut j: usize = 0;
    while j < n
        invariant
            j <= n,
            n == src@.len(),
            src.deep_view() == sdv,
            forall|x: Seq<char>|
                #[trigger] acc.deep_view().contains(x) <==> (old(acc).deep_view().contains(x)
                    || sdv.take(j as int).contains(x)),
        decreases n - j,
    {
        let ghost prev = acc.deep_view();
        assert(sdv[j as int] == src@[j as int]@);
        crate::repo_ref::push_unique(acc, &src[j]);
        proof {
            assert(sdv.take(j + 1) =~= sdv.take(j as int).push(sdv[j as int]));
            assert forall|x: Seq<char>| #[trigger] acc.deep_view().contains(x) implies (old(
                acc,
            ).deep_view().contains(x) || sdv.take(j + 1).contains(x)) by {
                if prev.contains(x) {
                    if sdv.take(j as int).contains(x) {
                        let ghost takenj = sdv.take(j as int);
                        let ii = choose|ii: int| 0 <= ii < takenj.len() && takenj[ii] == x;
                        assert(sdv.take(j + 1)[ii] == x);
                    }
                } else {
                    assert(x == sdv[j as int]);
                    assert(sdv.take(j + 1)[j as int] == x);
                }
            }
            assert forall|x: Seq<char>| (old(acc).deep_view().contains(x) || sdv.take(
                j + 1,
            ).contains(x)) implies #[trigger] acc.deep_view().contains(x) by {
                if old(acc).deep_view().contains(x) || sdv.take(j as int).contains(x) {
                    assert(prev.contains(x));
                } else {
                    let ghost taken = sdv.take(j + 1);
                    let ii = choose|ii: int| 0 <= ii < taken.len() && taken[ii] == x;
                    assert(ii == j);
                    assert(x == sdv[j as int]);
                }
            }
        }
        j += 1;
    }
    assert(sdv.take(n as int) =~= sdv);
}

fn merge_coord_set(acc: &mut Vec<Coordinate>, src: &Vec<Coordinate>)
    requires
        forall|p: int, q: int|
            0 <= p < q < old(acc).deep_view().len() ==> old(acc).deep_view()[p]
                != old(acc).deep_view()[q],
    ensures
        forall|c: CoordinateView|
            #[trigger] final(acc).deep_view().contains(c) <==> (old(acc).deep_view().contains(c)
                || src.deep_view().contains(c)),
        forall|p: int, q: int|
            0 <= p < q < final(acc).deep_view().len() ==> final(acc).deep_view()[p]
                != final(acc).deep_view()[q],
{
    let ghost sdv = src.deep_view();
    let n = src.len();
    let mut j: usize = 0;
    while j < n
        invariant
            j <= n,
            n == src@.len(),
            src.deep_view() == sdv,
            forall|c: CoordinateView|
                #[trigger] acc.deep_view().contains(c) <==> (old(acc).deep_view().contains(c)
                    || sdv.take(j as int).contains(c)),
            forall|p: int, q: int|
                0 <= p < q < acc.deep_view().len() ==> acc.deep_view()[p] != acc.deep_view()[q],
        decreases n - j,
    {
        let ghost prev = acc.deep_view();
        assert(sdv[j as int] == src@[j as int]@);
        push_unique_coord(acc, src[j].duplicate());
        proof {
            assert forall|c: CoordinateView| #[trigger] acc.deep_view().contains(c) implies (old(
                acc,
            ).deep_view().contains(c) || sdv.take(j + 1).contains(c)) by {
                assert(coords_contain(acc.deep_view(), c) == acc.deep_view().contains(c));
                if prev.contains(c) {
                    if sdv.take(j as int).contains(c) {
                        let ghost takenj = sdv.take(j as int);
                        let ii = choose|ii: int| 0 <= ii < takenj.len() && takenj[ii] == c;
                        assert(sdv.take(j + 1)[ii] == c);
                    }
                } else {
                    assert(coords_contain(prev, c) == prev.contains(c));
                    assert(c == sdv[j as int]);
                    assert(sdv.take(j + 1)[j as int] == c);
                }
            }
            assert forall|c: CoordinateView| (old(acc).deep_view().contains(c) || sdv.take(
                j + 1,
            ).contains(c)) implies #[trigger] acc.deep_view().contains(c) by {
                if old(acc).deep_view().contains(c) || sdv.take(j as int).contains(c) {
                    assert(prev.contains(c));
                    assert(coords_contain(prev, c));
                    assert(coords_contain(acc.deep_view(), c));
                } else {
                    let ghost taken = sdv.take(j + 1);
                    let ii = choose|ii: int| 0 <= ii < taken.len() && taken[ii] == c;
                    assert(ii == j);
                    assert(c == sdv[j as int]);
                    assert(coords_contain(acc.deep_view(), c));
                }
            }
        }
        j += 1;
    }
    assert(sdv.take(n as int) =~= sdv);
}

fn merge_updates(acc: &mut Vec<AnnouncementUpdate>, src: &Vec<AnnouncementUpdate>)
    requires
        updates_unique(old(acc).deep_view()),
    ensures
        updates_unique(final(acc).deep_view()),
        forall|u: AnnouncementUpdateView|
            #[trigger] final(acc).deep_view().contains(u) ==> (old(acc).deep_view().contains(u)
                || src.deep_view().contains(u)),
        forall|u: AnnouncementUpdateView|
            old(acc).deep_view().contains(u) || src.deep_view().contains(u) ==> #[trigger] dominated(
                final(acc).deep_view(),
                u,
            ),
{
    let ghost sdv = src.deep_view();
    let n = src.len();
    let mut j: usize = 0;
    while j < n
        invariant
            j <= n,
            n == src@.len(),
            src.deep_view() == sdv,
            updates_unique(acc.deep_view()),
            forall|u: AnnouncementUpdateView|
                #[trigger] acc.deep_view().contains(u) ==> (old(acc).deep_view().contains(u)
                    || sdv.take(j as int).contains(u)),
            forall|u: AnnouncementUpdateView|
                old(acc).deep_view().contains(u) || sdv.take(j as int).contains(u)
                    ==> #[trigger] dominated(acc.deep_view(), u),
        decreases n - j,
    {
        let ghost prev = acc.deep_view();
        assert(sdv[j as int] == src@[j as int]@);
        let ghost incoming = sdv[j as int];
        let m = acc.len();
        let mut k: usize = 0;
        let mut found: Option<usize> = None;
        while k < m && found.is_none()
            invariant
                k <= m,
                m == acc@.len(),
                acc.deep_view() == prev,
                j < n,
                n == src@.len(),
                src.deep_view() == sdv,
                incoming == sdv[j as int],
                found is None ==> forall|t: int|
                    0 <= t < k ==> (#[trigger] prev[t]).coordinate != incoming.coordinate,
                found matches Some(f) ==> f < m && prev[f as int].coordinate
                    == incoming.coordinate,
            decreases m - k, (if found is None {
                1int
            } else {
                0int
            }),
        {
            assert(acc.deep_view()[k as int] == acc@[k as int]@);
            assert(sdv[j as int] == src@[j as int]@);
            if acc[k].coordinate.same_as(&src[j].coordinate) {
                found = Some(k);
            } else {
                k += 1;
            }
        }
        match found {
            None => {
                push_update_entry(acc, src[j].duplicate());
                proof {
                    assert(acc.deep_view() == prev.push(incoming));
                    assert(acc.deep_view()[prev.len() as int] == incoming);
                    assert forall|p: int, q: int|
                        0 <= p < q < acc.deep_view().len() implies acc.deep_view()[p].coordinate
                        != acc.deep_view()[q].coordinate by {
                        if q < prev.len() {
                            assert(acc.deep_view()[p] == prev[p] && acc.deep_view()[q] == prev[q]);
                        } else {
                            assert(acc.deep_view()[p] == prev[p]);
                            assert(acc.deep_view()[q] == incoming);
                        }
                    }
                }
            },
            Some(f) => {
                if src[j].timestamp > acc[f].timestamp {
                    let replacement = src[j].duplicate();
                    acc.set(f, replacement);
                    proof {
                        assert(acc.deep_view()[f as int] == incoming) by {
                            assert(acc@[f as int]@ == incoming);
                        }
                        assert forall|p: int, q: int|
                            0 <= p < q < acc.deep_view().len() implies acc.deep_view()[p].coordinate
                            != acc.deep_view()[q].coordinate by {
                            if p != f {
                                assert(acc.deep_view()[p] == prev[p]);
                            } else {
                                assert(acc.deep_view()[p].coordinate == prev[p].coordinate);
                            }
                            if q != f {
                                assert(acc.deep_view()[q] == prev[q]);
                            } else {
                                assert(acc.deep_view()[q].coordinate == prev[q].coordinate);
                            }
                        }
                    }
                }
            },
        }
        proof {
            assert(sdv.take(j + 1) =~= sdv.take(j as int).push(incoming));
            assert forall|u: AnnouncementUpdateView| #[trigger] acc.deep_view().contains(u)
                implies (old(acc).deep_view().contains(u) || sdv.take(j + 1).contains(u)) by {
                let ii = choose|ii: int|
                    0 <= ii < acc.deep_view().len() && acc.deep_view()[ii] == u;
                if ii < prev.len() && acc.deep_view()[ii] == prev[ii] {
                    assert(prev.contains(u));
                    if sdv.take(j as int).contains(u) {
                        let ghost takenj = sdv.take(j as int);
                        let t2 = choose|t2: int| 0 <= t2 < takenj.len() && takenj[t2] == u;
                        assert(sdv.take(j + 1)[t2] == u);
                    }
                } else {
                    assert(u == incoming);
                    assert(sdv.take(j + 1)[j as int] == u);
                }
            }
            assert forall|u: AnnouncementUpdateView|
                old(acc).deep_view().contains(u) || sdv.take(j + 1).contains(u)
                    implies #[trigger] dominated(acc.deep_view(), u) by {
                if old(acc).deep_view().contains(u) || sdv.take(j as int).contains(u) {
                    assert(dominated(prev, u));
                    let u2 = choose|u2: AnnouncementUpdateView|
                        #[trigger] prev.contains(u2) && u2.coordinate == u.coordinate
                            && u2.timestamp >= u.timestamp;
                    let pi = choose|pi: int| 0 <= pi < prev.len() && prev[pi] == u2;
                    if acc.deep_view().len() > prev.len() {
                        assert(acc.deep_view()[pi] == prev[pi]);
                        assert(acc.deep_view().contains(u2));
                    } else if acc.deep_view() == prev {
                        assert(acc.deep_view().contains(u2));
                    } else {
                        if acc.deep_view()[pi] == prev[pi] {
                            assert(acc.deep_view().contains(acc.deep_view()[pi]));
                        } else {
                            assert(acc.deep_view()[pi].coordinate == prev[pi].coordinate
                                && acc.deep_view()[pi].timestamp >= prev[pi].timestamp);
                            assert(acc.deep_view().contains(acc.deep_view()[pi]));
                        }
                    }
                } else {
                    let ghost taken = sdv.take(j + 1);
                    let t2 = choose|t2: int| 0 <= t2 < taken.len() && taken[t2] == u;
                    assert(t2 == j);
                    assert(u == incoming);
                    if acc.deep_view().len() > prev.len() {
                        assert(acc.deep_view()[prev.len() as int] == incoming);
                        assert(acc.deep_view().contains(incoming));
                    } else if acc.deep_view() == prev {
                        assert(exists|f: int|
                            0 <= f < acc.deep_view().len() && (#[trigger] acc.deep_view()[f]).coordinate
                                == incoming.coordinate && acc.deep_view()[f].timestamp
                                >= incoming.timestamp);
                        let f = choose|f: int|
                            0 <= f < acc.deep_view().len() && (#[trigger] acc.deep_view()[f]).coordinate
                                == incoming.coordinate && acc.deep_view()[f].timestamp
                                >= incoming.timestamp;
                        assert(acc.deep_view().contains(acc.deep_view()[f]));
                    } else {
                        let f = choose|f: int|
                            0 <= f < acc.deep_view().len() && (#[trigger] acc.deep_view()[f]).coordinate
                                == incoming.coordinate && acc.deep_view()[f].timestamp
                                >= incoming.timestamp;
                        assert(acc.deep_view().contains(acc.deep_view()[f]));
                    }
                }
            }
        }
        j += 1;
    }
    assert(sdv.take(n as int) =~= sdv);
}


/// Merge per-relay fetch reports: new coordinates, proposals, commits,
/// statuses and profiles by set union, announcement updates by the newest
/// timestamp per coordinate. Failed relays contribute nothing.
pub fn consolidate_fetch_reports(reports: Vec<Result<FetchReport, String>>) -> (r: FetchReport)
    ensures
        r.relay is None,
        forall|c: CoordinateView|
            #[trigger] r.repo_coordinates.deep_view().contains(c) <==> flat_contains(
                reports@.map_values(|x: Result<FetchReport, String>| ok_report_coords(x)),
                c,
            ),
        forall|p: int, q: int|
            0 <= p < q < r.repo_coordinates.deep_view().len() ==> r.repo_coordinates.deep_view()[p]
                != r.repo_coordinates.deep_view()[q],
        forall|x: Seq<char>|
            #[trigger] r.proposals.deep_view().contains(x) <==> flat_contains(
                reports@.map_values(|y: Result<FetchReport, String>| ok_report_proposals(y)),
                x,
            ),
        forall|x: Seq<char>|
            #[trigger] r.commits.deep_view().contains(x) <==> flat_contains(
                reports@.map_values(|y: Result<FetchReport, String>| ok_report_commits(y)),
                x,
            ),
        forall|x: Seq<char>|
            #[trigger] r.statuses.deep_view().contains(x) <==> flat_contains(
                reports@.map_values(|y: Result<FetchReport, String>| ok_report_statuses(y)),
                x,
            ),
        forall|x: Seq<char>|
            #[trigger] r.contributor_profiles.deep_view().contains(x) <==> flat_contains(
                reports@.map_values(|y: Result<FetchReport, String>| ok_report_profiles(y)),
                x,
            ),
        updates_unique(r.updated_repo_announcements.deep_view()),
        forall|u: AnnouncementUpdateView|
            #[trigger] r.updated_repo_announcements.deep_view().contains(u) ==> flat_contains(
                reports@.map_values(|y: Result<FetchReport, String>| ok_report_updates(y)),
                u,
            ),
        forall|u: AnnouncementUpdateView|
            flat_contains(
                reports@.map_values(|y: Result<FetchReport, String>| ok_report_updates(y)),
                u,
            ) ==> #[trigger] dominated(r.updated_repo_announcements.deep_view(), u),
{
    let ghost rs = reports@;
    let ghost co = rs.map_values(|x: Result<FetchReport, String>| ok_report_coords(x));
    let ghost up = rs.map_values(|y: Result<FetchReport, String>| ok_report_updates(y));
    let ghost pr = rs.map_values(|y: Result<FetchReport, String>| ok_report_proposals(y));
    let ghost cm = rs.map_values(|y: Result<FetchReport, String>| ok_report_commits(y));
    let ghost st = rs.map_values(|y: Result<FetchReport, String>| ok_report_statuses(y));
    let ghost pf = rs.map_values(|y: Result<FetchReport, String>| ok_report_profiles(y));
    let mut r = FetchReport::empty(None);
    let n = reports.len();
    let mut i: usize = 0;
    proof {
        assert(co.take(0) =~= Seq::<Seq<CoordinateView>>::empty());
        assert(up.take(0) =~= Seq::<Seq<AnnouncementUpdateView>>::empty());
        assert(r.repo_coordinates.deep_view() =~= Seq::<CoordinateView>::empty());
        assert(r.updated_repo_announcements.deep_view() =~= Seq::<AnnouncementUpdateView>::empty());
        assert(r.proposals.deep_view() =~= Seq::<Seq<char>>::empty());
        assert(r.commits.deep_view() =~= Seq::<Seq<char>>::empty());
        assert(r.statuses.deep_view() =~= Seq::<Seq<char>>::empty());
        assert(r.contributor_profiles.deep_view() =~= Seq::<Seq<char>>::empty());
    }
    while i < n
        invariant
            i <= n,
            n == reports@.len(),
            reports@ == rs,
            co == rs.map_values(|x: Result<FetchReport, String>| ok_report_coords(x)),
            up == rs.map_values(|y: Result<FetchReport, String>| ok_report_updates(y)),
            pr == rs.map_values(|y: Result<FetchReport, String>| ok_report_proposals(y)),
            cm == rs.map_values(|y: Result<FetchReport, String>| ok_report_commits(y)),
            st == rs.map_values(|y: Result<FetchReport, String>| ok_report_statuses(y)),
            pf == rs.map_values(|y: Result<FetchReport, String>| ok_report_profiles(y)),
            r.relay is None,
            forall|c: CoordinateView|
                #[trigger] r.repo_coordinates.deep_view().contains(c) <==> flat_contains(
                    co.take(i as int),
                    c,
                ),
            forall|p: int, q: int|
                0 <= p < q < r.repo_coordinates.deep_view().len()
                    ==> r.repo_coordinates.deep_view()[p] != r.repo_coordinates.deep_view()[q],
            forall|x: Seq<char>|
                #[trigger] r.proposals.deep_view().contains(x) <==> flat_contains(
                    pr.take(i as int),
                    x,
                ),
            forall|x: Seq<char>|
                #[trigger] r.commits.deep_view().contains(x) <==> flat_contains(
                    cm.take(i as int),
                    x,
                ),
            forall|x: Seq<char>|
                #[trigger] r.statuses.deep_view().contains(x) <==> flat_contains(
                    st.take(i as int),
                    x,
                ),
            forall|x: Seq<char>|
                #[trigger] r.contributor_profiles.deep_view().contains(x) <==> flat_contains(
                    pf.take(i as int),
                    x,
                ),
            updates_unique(r.updated_repo_announcements.deep_view()),
            forall|u: AnnouncementUpdateView|
                #[trigger] r.updated_repo_announcements.deep_view().contains(u) ==> flat_contains(
                    up.take(i as int),
                    u,
                ),
            forall|u: AnnouncementUpdateView|
                #[trigger] flat_contains(up.take(i as int), u) ==> dominated(
                    r.updated_repo_announcements.deep_view(),
                    u,
                ),
        decreases n - i,
    {
        let ghost co_before = r.repo_coordinates.deep_view();
        let ghost up_before = r.updated_repo_announcements.deep_view();
        let ghost pr_before = r.proposals.deep_view();
        let ghost cm_before = r.commits.deep_view();
        let ghost st_before = r.statuses.deep_view();
        let ghost pf_before = r.contributor_profiles.deep_view();
        if let Ok(rep) = &reports[i] {
            proof {
                assert(rs[i as int] == reports@[i as int]);
                assert(co[i as int] == ok_report_coords(rs[i as int]));
                assert(up[i as int] == ok_report_updates(rs[i as int]));
                assert(pr[i as int] == ok_report_proposals(rs[i as int]));
                assert(cm[i as int] == ok_report_commits(rs[i as int]));
                assert(st[i as int] == ok_report_statuses(rs[i as int]));
                assert(pf[i as int] == ok_report_profiles(rs[i as int]));
            }
            merge_coord_set(&mut r.repo_coordinates, &rep.repo_coordinates);
            merge_updates(&mut r.updated_repo_announcements, &rep.updated_repo_announcements);
            merge_string_set(&mut r.proposals, &rep.proposals);
            merge_string_set(&mut r.commits, &rep.commits);
            merge_string_set(&mut r.statuses, &rep.statuses);
            merge_string_set(&mut r.contributor_profiles, &rep.contributor_profiles);
            proof {
                lemma_flat_take_step(co, i as int);
                lemma_flat_take_step(up, i as int);
                lemma_flat_take_step(pr, i as int);
                lemma_flat_take_step(cm, i as int);
                lemma_flat_take_step(st, i as int);
                lemma_flat_take_step(pf, i as int);
                assert forall|u: AnnouncementUpdateView| #[trigger] flat_contains(
                    up.take(i + 1),
                    u,
                ) implies dominated(r.updated_repo_announcements.deep_view(), u) by {
                    if flat_contains(up.take(i as int), u) {
                        assert(dominated(up_before, u));
                        let u2 = choose|u2: AnnouncementUpdateView|
                            #[trigger] up_before.contains(u2) && u2.coordinate == u.coordinate
                                && u2.timestamp >= u.timestamp;
                        assert(dominated(r.updated_repo_announcements.deep_view(), u2));
                        let u3 = choose|u3: AnnouncementUpdateView|
                            #[trigger] r.updated_repo_announcements.deep_view().contains(u3)
                                && u3.coordinate == u2.coordinate && u3.timestamp >= u2.timestamp;
                        assert(u3.coordinate == u.coordinate && u3.timestamp >= u.timestamp);
                    } else {
                        assert(up[i as int].contains(u));
                        assert(ok_report_updates(rs[i as int]).contains(u));
                        assert(rep.updated_repo_announcements.deep_view().contains(u));
                        assert(dominated(r.updated_repo_announcements.deep_view(), u));
                    }
                }
            }
        } else {
            proof {
                assert(rs[i as int] == reports@[i as int]);
                assert(co[i as int] =~= Seq::<CoordinateView>::empty());
                assert(up[i as int] =~= Seq::<AnnouncementUpdateView>::empty());
                assert(pr[i as int] =~= Seq::<Seq<char>>::empty());
                assert(cm[i as int] =~= Seq::<Seq<char>>::empty());
                assert(st[i as int] =~= Seq::<Seq<char>>::empty());
                assert(pf[i as int] =~= Seq::<Seq<char>>::empty());
                lemma_flat_take_step(co, i as int);
                lemma_flat_take_step(up, i as int);
                lemma_flat_take_step(pr, i as int);
                lemma_flat_take_step(cm, i as int);
                lemma_flat_take_step(st, i as int);
                lemma_flat_take_step(pf, i as int);
            }
        }
        i += 1;
    }
    proof {
        assert(co.take(n as int) =~= co);
        assert(up.take(n as int) =~= up);
        assert(pr.take(n as int) =~= pr);
        assert(cm.take(n as int) =~= cm);
        assert(st.take(n as int) =~= st);
        assert(pf.take(n as int) =~= pf);
    }
    r
}


proof fn lemma_filter_congruence(
    c: Seq<EventView>,
    p: spec_fn(EventView) -> bool,
    q: spec_fn(EventView) -> bool,
)
    requires
        forall|x: EventView| #[trigger] p(x) == q(x),
    ensures
        c.filter(p) == c.filter(q),
    decreases c.len(),
{
    reveal(Seq::filter);
    if c.len() > 0 {
        lemma_filter_congruence(c.drop_last(), p, q);
    }
}

/// The request asks about an announcement by this author key.
pub open spec fn asks_about_key(coords: Seq<CoordinateStateView>, key: Seq<char>) -> bool {
    exists|p: int| 0 <= p < coords.len() && (#[trigger] coords[p]).coordinate.public_key == key
}

/// A patch event referencing one of these coordinates.
pub open spec fn patch_for_coords(e: EventView, coords: Seq<CoordinateView>) -> bool {
    e.kind == PATCH_KIND && seqs_intersect(tag_first_values(e.tags, "a"@), coord_strings_of(coords))
}

/// Assemble one fetch: the relays to ask — the fallback ones plus those the
/// resolved repository announces — and the request: the repository's
/// coordinates with their last known announcement times, the proposal roots
/// already cached, and the ids already cached, so relays that changed
/// nothing are recognised. With nothing resolvable, the seed maintainers
/// alone are asked about.
pub fn create_relays_request(
    local: &EventCache,
    global: &EventCache,
    identifier: &str,
    seed_maintainers: &Vec<String>,
    fallback_relays: &Vec<String>,
) -> (r: (Vec<String>, FetchRequest))
    ensures
        ({
            let (relays, request) = r;
            &&& forall|k: int|
                0 <= k < fallback_relays.deep_view().len() ==> relays.deep_view().contains(
                    #[trigger] fallback_relays.deep_view()[k],
                )
            &&& forall|x: Seq<char>|
                #[trigger] relays.deep_view().contains(x) ==> fallback_relays.deep_view().contains(
                    x,
                ) || exists|e: EventView|
                    crate::repo_ref::in_caches(global@, local@, e)
                        && crate::repo_ref::is_announcement_for(e, identifier@)
                        && crate::events::tag_rest_values(e.tags, "relays"@).contains(x)
            &&& request.contributor_profiles@.len() == 0
            &&& forall|k: int|
                0 <= k < request.repo_coordinates@.len() ==> (
                #[trigger] request.repo_coordinates.deep_view()[k]).coordinate.kind
                    == REPO_REF_KIND && request.repo_coordinates.deep_view()[k].coordinate.identifier
                    == identifier@
            &&& forall|k: int|
                0 <= k < seed_maintainers.deep_view().len() ==> asks_about_key(
                    request.repo_coordinates.deep_view(),
                    #[trigger] seed_maintainers.deep_view()[k],
                )
            &&& request.proposals.deep_view() == local@.filter(
                |e: EventView|
                    patch_for_coords(e, coords_of_states(request.repo_coordinates.deep_view())),
            ).map_values(|e: EventView| e.id)
            &&& request.existing_events.deep_view() == local@.filter(
                |e: EventView|
                    fetch_relevant(
                        e,
                        coords_of_states(request.repo_coordinates.deep_view()),
                        request.proposals.deep_view(),
                        request.contributor_profiles.deep_view(),
                    ),
            ).map_values(|e: EventView| e.id)
        }),
{
    let resolved = crate::repo_ref::get_repo_ref_from_cache(
        local,
        global,
        identifier,
        seed_maintainers,
    );

    // The relays to ask.
    let mut relays: Vec<String> = Vec::new();
    let nf = fallback_relays.len();
    let mut i: usize = 0;
    while i < nf
        invariant
            i <= nf,
            nf == fallback_relays@.len(),
            forall|k: int|
                0 <= k < i ==> relays.deep_view().contains(
                    #[trigger] fallback_relays.deep_view()[k],
                ),
            forall|x: Seq<char>|
                #[trigger] relays.deep_view().contains(x) ==> fallback_relays.deep_view().contains(
                    x,
                ),
        decreases nf - i,
    {
        let ghost prev = relays.deep_view();
        assert(fallback_relays.deep_view()[i as int] == fallback_relays@[i as int]@);
        crate::repo_ref::push_unique(&mut relays, &fallback_relays[i]);
        proof {
            assert forall|x: Seq<char>| #[trigger] relays.deep_view().contains(x)
                implies fallback_relays.deep_view().contains(x) by {
                if !prev.contains(x) {
                    assert(x == fallback_relays.deep_view()[i as int]);
                }
            }
        }
        i += 1;
    }
    let mut coords: Vec<CoordinateState> = Vec::new();
    match &resolved {
        Ok(rr) => {
            let ghost announced = rr.relays.deep_view();
            let nr = rr.relays.len();
            let mut j: usize = 0;
            while j < nr
                invariant
                    j <= nr,
                    nr == rr.relays@.len(),
                    rr.relays.deep_view() == announced,
                    forall|k: int|
                        0 <= k < fallback_relays.deep_view().len() ==> relays.deep_view().contains(
                            #[trigger] fallback_relays.deep_view()[k],
                        ),
                    forall|x: Seq<char>|
                        #[trigger] relays.deep_view().contains(x)
                            ==> fallback_relays.deep_view().contains(x) || announced.contains(x),
                decreases nr - j,
            {
                let ghost prev = relays.deep_view();
                assert(announced[j as int] == rr.relays@[j as int]@);
                crate::repo_ref::push_unique(&mut relays, &rr.relays[j]);
                proof {
                    assert forall|x: Seq<char>| #[trigger] relays.deep_view().contains(x)
                        implies fallback_relays.deep_view().contains(x) || announced.contains(
                        x,
                    ) by {
                        if !prev.contains(x) {
                            assert(x == announced[j as int]);
                        }
                    }
                    assert forall|k: int|
                        0 <= k < fallback_relays.deep_view().len() implies relays
                        .deep_view().contains(#[trigger] fallback_relays.deep_view()[k]) by {
                        assert(prev.contains(fallback_relays.deep_view()[k]));
                    }
                }
                j += 1;
            }
            // One asked-about coordinate per maintainer, with the time of
            // that maintainer's cached announcement where one is kept.
            let rr_coords = rr.coordinates();
            let nc = rr_coords.len();
            let mut k: usize = 0;
            while k < nc
                invariant
                    k <= nc,
                    nc == rr_coords@.len(),
                    nc == rr.maintainers.deep_view().len(),
                    rr.identifier@ == identifier@,
                    forall|p: int|
                        0 <= p < nc ==> (#[trigger] rr_coords@[p]@) == (CoordinateView {
                            kind: REPO_REF_KIND,
                            public_key: rr.maintainers.deep_view()[p],
                            identifier: rr.identifier@,
                        }),
                    coords@.len() == k,
                    forall|p: int|
                        0 <= p < k ==> (#[trigger] coords.deep_view()[p]).coordinate
                            == rr_coords@[p]@,
                decreases nc - k,
            {
                let mut last: Option<u64> = None;
                let ne = rr.events.len();
                let mut t: usize = 0;
                while t < ne
                    invariant
                        t <= ne,
                        ne == rr.events@.len(),
                        k < nc,
                        nc == rr_coords@.len(),
                    decreases ne - t,
                {
                    if crate::strings::str_eq(
                        rr.events[t].event.pubkey.as_str(),
                        rr_coords[k].public_key.as_str(),
                    ) {
                        let ts = rr.events[t].event.created_at;
                        last = match last {
                            None => Some(ts),
                            Some(prev_ts) => if ts > prev_ts {
                                Some(ts)
                            } else {
                                Some(prev_ts)
                            },
                        };
                    }
                    t += 1;
                }
                let entry = CoordinateState {
                    coordinate: rr_coords[k].duplicate(),
                    last_timestamp: last,
                };
                let ghost prevc = coords.deep_view();
                coords.push(entry);
                proof {
                    assert forall|p: int|
                        0 <= p < k + 1 implies (#[trigger] coords.deep_view()[p]).coordinate
                        == rr_coords@[p]@ by {
                        if p < k {
                            assert(coords.deep_view()[p] == prevc[p]);
                        }
                    }
                }
                k += 1;
            }
            proof {
                assert forall|k2: int|
                    0 <= k2 < seed_maintainers.deep_view().len() implies asks_about_key(
                    coords.deep_view(),
                    #[trigger] seed_maintainers.deep_view()[k2],
                ) by {
                    assert(rr.maintainers.deep_view().contains(seed_maintainers.deep_view()[k2]));
                    let m = choose|m: int|
                        0 <= m < rr.maintainers.deep_view().len() && rr.maintainers.deep_view()[m]
                            == seed_maintainers.deep_view()[k2];
                    assert(coords.deep_view()[m].coordinate == rr_coords@[m]@);
                    assert(coords.deep_view()[m].coordinate.public_key
                        == seed_maintainers.deep_view()[k2]);
                }
            }
        },
        Err(_) => {
            let ns = seed_maintainers.len();
            let mut k: usize = 0;
            while k < ns
                invariant
                    k <= ns,
                    ns == seed_maintainers@.len(),
                    coords@.len() == k,
                    forall|p: int|
                        0 <= p < k ==> (#[trigger] coords.deep_view()[p]).coordinate
                            == (CoordinateView {
                            kind: REPO_REF_KIND,
                            public_key: seed_maintainers.deep_view()[p],
                            identifier: identifier@,
                        }),
                decreases ns - k,
            {
                let mut ident = String::new();
                ident.append(identifier);
                let entry = CoordinateState {
                    coordinate: Coordinate {
                        kind: REPO_REF_KIND,
                        public_key: seed_maintainers[k].clone(),
                        identifier: ident,
                    },
                    last_timestamp: None,
                };
                let ghost prevc = coords.deep_view();
                coords.push(entry);
                proof {
                    assert(seed_maintainers.deep_view()[k as int]
                        == seed_maintainers@[k as int]@);
                    assert forall|p: int|
                        0 <= p < k + 1 implies (#[trigger] coords.deep_view()[p]).coordinate
                        == (CoordinateView {
                        kind: REPO_REF_KIND,
                        public_key: seed_maintainers.deep_view()[p],
                        identifier: identifier@,
                    }) by {
                        if p < k {
                            assert(coords.deep_view()[p] == prevc[p]);
                        }
                    }
                }
                k += 1;
            }
            proof {
                assert forall|k2: int|
                    0 <= k2 < seed_maintainers.deep_view().len() implies asks_about_key(
                    coords.deep_view(),
                    #[trigger] seed_maintainers.deep_view()[k2],
                ) by {
                    assert(coords.deep_view()[k2].coordinate.public_key
                        == seed_maintainers.deep_view()[k2]);
                }
            }
        },
    }

    let ghost cdv = coords.deep_view();

    // The proposal roots already cached for these coordinates.
    let coord_vec = coordinate_states_coords(&coords);
    let proposals: Vec<String>;
    if coord_vec.len() == 0 {
        proposals = Vec::new();
        proof {
            let pred = |e: EventView| patch_for_coords(e, coords_of_states(coords.deep_view()));
            assert forall|e: EventView| !(#[trigger] pred(e)) by {
                if pred(e) {
                    let x = choose|x: Seq<char>|
                        tag_first_values(e.tags, "a"@).contains(x) && coord_strings_of(
                            coords_of_states(coords.deep_view()),
                        ).contains(x);
                    assert(coords_of_states(coords.deep_view()).len() == 0);
                }
            }
            local@.lemma_all_neg_filter_empty(pred);
            assert(proposals.deep_view() =~= local@.filter(pred).map_values(
                |e: EventView| e.id,
            ));
        }
    } else {
        let mut pf = Filter::any();
        let mut pkinds: Vec<u16> = Vec::new();
        pkinds.push(PATCH_KIND);
        pf.kinds = pkinds;
        pf.coord_refs = coordinate_strings_for(&coord_vec);
        let mut pfilters: Vec<Filter> = Vec::new();
        pfilters.push(pf);
        let ghost ppred = |ev: EventView| matches_any_filter(pfilters.deep_view(), ev);
        proof {
            assert forall|e: EventView| #[trigger] ppred(e) == patch_for_coords(
                e,
                coords_of_states(coords.deep_view()),
            ) by {
                let fv = pfilters.deep_view()[0];
                assert(fv.kinds =~= seq![PATCH_KIND]);
                assert(fv.coord_refs == coord_strings_of(coord_vec.deep_view()));
                assert(coord_vec.deep_view() =~= coords_of_states(coords.deep_view()));
                assert(fv.authors.len() == 0 && fv.identifiers.len() == 0 && fv.event_refs.len()
                    == 0);
                assert(fv.coord_refs.len() > 0);
                if filter_matches(fv, e) {
                    assert(fv.kinds.contains(e.kind));
                    assert(e.kind == PATCH_KIND);
                }
                if patch_for_coords(e, coords_of_states(coords.deep_view())) {
                    assert(fv.kinds[0] == e.kind);
                    assert(fv.kinds.contains(e.kind));
                    assert(seqs_intersect(tag_first_values(e.tags, "a"@), fv.coord_refs));
                    assert(filter_matches(fv, e));
                    assert(matches_any_filter(pfilters.deep_view(), e));
                }
            }
        }
        proposals = local.ids_matching(&pfilters);
        proof {
            lemma_filter_congruence(
                local@,
                ppred,
                |e: EventView| patch_for_coords(e, coords_of_states(coords.deep_view())),
            );
        }
    }

    // The ids already cached that the fetch filters would match.
    let profiles: Vec<String> = Vec::new();
    let efilters = get_fetch_filters(&coord_vec, &proposals, &profiles);
    let ghost epred = |ev: EventView| matches_any_filter(efilters.deep_view(), ev);
    let existing_events = local.ids_matching(&efilters);
    proof {
        assert(coord_vec.deep_view() =~= coords_of_states(coords.deep_view()));
        lemma_filter_congruence(
            local@,
            epred,
            |e: EventView|
                fetch_relevant(
                    e,
                    coords_of_states(coords.deep_view()),
                    proposals.deep_view(),
                    profiles.deep_view(),
                ),
        );
    }

    // Room for the longest relay name in progress output.
    let nrel = relays.len();
    let mut width: usize = 0;
    let mut w: usize = 0;
    while w < nrel
        invariant
            w <= nrel,
            nrel == relays@.len(),
            width < usize::MAX - 2,
        decreases nrel - w,
    {
        let len = relays[w].as_str().unicode_len();
        if len < usize::MAX - 2 && len > width {
            width = len;
        }
        w += 1;
    }
    let relay_column_width = width + 2;

    let ghost pdv = proposals.deep_view();
    let ghost fdv = profiles.deep_view();
    let request = FetchRequest {
        relay_column_width,
        repo_coordinates: coords,
        proposals,
        contributor_profiles: profiles,
        existing_events,
    };
    proof {
        assert(request.repo_coordinates.deep_view() == cdv);
        assert(request.proposals.deep_view() == pdv);
        assert(request.contributor_profiles.deep_view() == fdv);
        assert forall|k: int|
            0 <= k < seed_maintainers.deep_view().len() implies asks_about_key(
            request.repo_coordinates.deep_view(),
            #[trigger] seed_maintainers.deep_view()[k],
        ) by {
            assert(asks_about_key(cdv, seed_maintainers.deep_view()[k]));
        }
        lemma_filter_congruence(
            local@,
            |e: EventView| fetch_relevant(e, coords_of_states(cdv), pdv, fdv),
            |e: EventView|
                fetch_relevant(
                    e,
                    coords_of_states(request.repo_coordinates.deep_view()),
                    request.proposals.deep_view(),
                    request.contributor_profiles.deep_view(),
                ),
        );
        lemma_filter_congruence(
            local@,
            |e: EventView| patch_for_coords(e, coords_of_states(cdv)),
            |e: EventView|
                patch_for_coords(e, coords_of_states(request.repo_coordinates.deep_view())),
        );
        lemma_filter_congruence(
            local@,
            |e: EventView| patch_for_coords(e, coords_of_states(coords.deep_view())),
            |e: EventView| patch_for_coords(e, coords_of_states(cdv)),
        );
        lemma_filter_congruence(
            local@,
            |e: EventView|
                fetch_relevant(
                    e,
                    coords_of_states(coords.deep_view()),
                    proposals.deep_view(),
                    profiles.deep_view(),
                ),
            |e: EventView| fetch_relevant(e, coords_of_states(cdv), pdv, fdv),
        );
    }
    (relays, request)
}

/// The coordinates of a list of coordinate states.
fn coordinate_states_coords(coords: &Vec<CoordinateState>) -> (r: Vec<Coordinate>)
    ensures
        r.deep_view() == coords_of_states(coords.deep_view()),
{
    let n = coords.len();
    let mut r: Vec<Coordinate> = Vec::new();
    let mut i: usize = 0;
    while i < n
        invariant
            i <= n,
            n == coords@.len(),
            r@.len() == i,
            forall|k: int|
                0 <= k < i ==> #[trigger] r.deep_view()[k] == coords.deep_view()[k].coordinate,
        decreases n - i,
    {
        let ghost prev = r.deep_view();
        let c = coords[i].coordinate.duplicate();
        r.push(c);
        proof {
            assert(coords.deep_view()[i as int] == coords@[i as int]@);
            assert forall|k: int| 0 <= k < i + 1 implies #[trigger] r.deep_view()[k]
                == coords.deep_view()[k].coordinate by {
                if k < i {
                    assert(r.deep_view()[k] == prev[k]);
                }
            }
        }
        i += 1;
    }
    assert(r.deep_view() =~= coords_of_states(coords.deep_view()));
    r
}

} // verus!
