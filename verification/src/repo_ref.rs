//! Repository identity: coordinates of replaceable events, the materialized
//! view over a repository's announcement events, and its resolution from the
//! caches with recursive maintainer discovery.

use vstd::pervasive::VecAdditionalExecFns;
use vstd::prelude::*;

use crate::cache::EventCache;
use crate::events::{
    event_identifier, event_identifier_view, tag_multi_values, tag_rest_values, Event, EventView,
    REPO_REF_KIND,
};
use crate::filters::{filter_matches, matches_any_filter, Filter};
use crate::strings::{dec_digits, str_eq, u64_to_decimal, vec_contains_str};

verus! {

/// The stable address of a replaceable event: kind, author and identifier.
pub struct Coordinate {
    pub kind: u16,
    /// The author key, hex encoded.
    pub public_key: String,
    /// The `d` tag identifier.
    pub identifier: String,
}

/// The mathematical shape of a coordinate.
pub struct CoordinateView {
    pub kind: u16,
    pub public_key: Seq<char>,
    pub identifier: Seq<char>,
}

impl View for Coordinate {
    type V = CoordinateView;

    open spec fn view(&self) -> CoordinateView {
        CoordinateView {
            kind: self.kind,
            public_key: self.public_key@,
            identifier: self.identifier@,
        }
    }
}

impl DeepView for Coordinate {
    type V = CoordinateView;

    open spec fn deep_view(&self) -> CoordinateView {
        self.view()
    }
}

/// The wire form of a coordinate: `kind:public_key:identifier`.
pub open spec fn coordinate_string(c: CoordinateView) -> Seq<char> {
    dec_digits(c.kind as nat) + ":"@ + c.public_key + ":"@ + c.identifier
}

impl Coordinate {
    /// The wire form of the coordinate, as `a` tags carry it.
    pub fn to_string_form(&self) -> (r: String)
        ensures
            r@ == coordinate_string(self@),
    {
        let mut r = u64_to_decimal(self.kind as u64);
        r.append(":");
        r.append(self.public_key.as_str());
        r.append(":");
        r.append(self.identifier.as_str());
        r
    }

    /// An owned copy of the coordinate.
    pub fn duplicate(&self) -> (r: Coordinate)
        ensures
            r@ == self@,
    {
        Coordinate {
            kind: self.kind,
            public_key: self.public_key.clone(),
            identifier: self.identifier.clone(),
        }
    }

    /// Whether two coordinates address the same replaceable event.
    pub fn same_as(&self, other: &Coordinate) -> (r: bool)
        ensures
            r == (self@ == other@),
    {
        let r = self.kind == other.kind && str_eq(self.public_key.as_str(), other.public_key.as_str())
            && str_eq(self.identifier.as_str(), other.identifier.as_str());
        r
    }
}

/// One maintainer's latest announcement, kept with its coordinate.
pub struct AnnouncementEntry {
    pub coordinate: Coordinate,
    pub event: Event,
}

/// The materialized view over a repository's announcement events: its
/// identifier, the recursively discovered maintainer set, the relays and the
/// VCS servers it announces, and one announcement event per maintainer.
pub struct RepoRef {
    /// The repository identifier all the announcements share.
    pub identifier: String,
    /// Every maintainer discovered, hex encoded, without duplicates.
    pub maintainers: Vec<String>,
    /// The relays the authoritative announcement names.
    pub relays: Vec<String>,
    /// The VCS server URLs the authoritative announcement names.
    pub git_server_urls: Vec<String>,
    /// Per-maintainer announcement events.
    pub events: Vec<AnnouncementEntry>,
}

impl RepoRef {
    /// The coordinates of the repository: one per maintainer, at the
    /// announcement kind, under the shared identifier.
    pub fn coordinates(&self) -> (r: Vec<Coordinate>)
        ensures
            r@.len() == self.maintainers@.len(),
            forall|i: int|
                0 <= i < r@.len() ==> #[trigger] r@[i]@ == (CoordinateView {
                    kind: REPO_REF_KIND,
                    public_key: self.maintainers.deep_view()[i],
                    identifier: self.identifier@,
                }),
    {
        let n = self.maintainers.len();
        let mut r: Vec<Coordinate> = Vec::new();
        let mut i: usize = 0;
        while i < n
            invariant
                i <= n,
                n == self.maintainers.len(),
                r@.len() == i,
                forall|k: int|
                    0 <= k < i ==> #[trigger] r@[k]@ == (CoordinateView {
                        kind: REPO_REF_KIND,
                        public_key: self.maintainers.deep_view()[k],
                        identifier: self.identifier@,
                    }),
            decreases n - i,
        {
            r.push(
                Coordinate {
                    kind: REPO_REF_KIND,
                    public_key: self.maintainers[i].clone(),
                    identifier: self.identifier.clone(),
                },
            );
            assert(self.maintainers.deep_view()[i as int] == self.maintainers@[i as int]@);
            i += 1;
        }
        r
    }

    /// The coordinates of the repository in wire form, for `a` tag filters.
    pub fn coordinate_strings(&self) -> (r: Vec<String>)
        ensures
            r@.len() == self.maintainers@.len(),
            forall|i: int|
                0 <= i < r@.len() ==> #[trigger] r.deep_view()[i] == coordinate_string(
                    CoordinateView {
                        kind: REPO_REF_KIND,
                        public_key: self.maintainers.deep_view()[i],
                        identifier: self.identifier@,
                    },
                ),
    {
        let coords = self.coordinates();
        let n = coords.len();
        let mut r: Vec<String> = Vec::new();
        let mut i: usize = 0;
        while i < n
            invariant
                i <= n,
                n == coords@.len(),
                coords@.len() == self.maintainers@.len(),
                forall|k: int|
                    0 <= k < n ==> #[trigger] coords@[k]@ == (CoordinateView {
                        kind: REPO_REF_KIND,
                        public_key: self.maintainers.deep_view()[k],
                        identifier: self.identifier@,
                    }),
                r@.len() == i,
                forall|k: int|
                    0 <= k < i ==> #[trigger] r.deep_view()[k] == coordinate_string(coords@[k]@),
            decreases n - i,
        {
            let ghost prev = r.deep_view();
            let s = coords[i].to_string_form();
            r.push(s);
            proof {
                assert forall|k: int| 0 <= k < i + 1 implies #[trigger] r.deep_view()[k]
                    == coordinate_string(coords@[k]@) by {
                    if k < i {
                        assert(r.deep_view()[k] == prev[k]);
                    } else {
                        assert(r.deep_view()[k] == s@);
                    }
                }
            }
            i += 1;
        }
        r
    }
}

/// Why an event could not be read as a repository announcement.
#[derive(Clone, Copy, PartialEq, Eq, Structural, Debug)]
pub enum RepoRefError {
    /// The event is not of the announcement kind.
    WrongKind,
    /// The event carries no identifier.
    MissingIdentifier,
}

/// Read one announcement event into a repository view: the identifier from
/// its `d` tag, the maintainers as its author followed by its `maintainers`
/// tag values, the relays and VCS servers from its `relays` and `clone`
/// tags. The announcement's own author always counts as a maintainer.
pub fn repo_ref_from_event(e: &Event) -> (r: Result<RepoRef, RepoRefError>)
    ensures
        match r {
            Ok(rr) => {
                &&& e@.kind == REPO_REF_KIND
                &&& event_identifier_view(e@) matches Some(d) && rr.identifier@ == d
                &&& rr.maintainers.deep_view() == seq![e@.pubkey] + tag_rest_values(
                    e@.tags,
                    "maintainers"@,
                )
                &&& rr.relays.deep_view() == tag_rest_values(e@.tags, "relays"@)
                &&& rr.git_server_urls.deep_view() == tag_rest_values(e@.tags, "clone"@)
                &&& rr.events@.len() == 1
                &&& rr.events@[0].event@ == e@
                &&& rr.events@[0].coordinate@ == (CoordinateView {
                    kind: REPO_REF_KIND,
                    public_key: e@.pubkey,
                    identifier: rr.identifier@,
                })
            },
            Err(RepoRefError::WrongKind) => e@.kind != REPO_REF_KIND,
            Err(RepoRefError::MissingIdentifier) => e@.kind == REPO_REF_KIND
                && event_identifier_view(e@) is None,
        },
{
    if e.kind != REPO_REF_KIND {
        return Err(RepoRefError::WrongKind);
    }
    let identifier = match event_identifier(e) {
        Some(d) => d,
        None => {
            return Err(RepoRefError::MissingIdentifier);
        },
    };
    let mut maintainers: Vec<String> = Vec::new();
    maintainers.push(e.pubkey.clone());
    let tagged = tag_multi_values(e, "maintainers");
    let ghost tagged_view = tagged.deep_view();
    let n = tagged.len();
    let mut i: usize = 0;
    while i < n
        invariant
            i <= n,
            n == tagged@.len(),
            tagged.deep_view() == tagged_view,
            maintainers.deep_view() == seq![e@.pubkey] + tagged_view.take(i as int),
        decreases n - i,
    {
        let ghost prev = maintainers.deep_view();
        let x = tagged[i].clone();
        maintainers.push(x);
        proof {
            assert(x@ == tagged_view[i as int]);
            assert forall|k: int| 0 <= k < maintainers@.len() implies #[trigger] maintainers
                .deep_view()[k] == prev.push(x@)[k] by {
                if k < prev.len() {
                    assert(maintainers.deep_view()[k] == prev[k]);
                } else {
                    assert(maintainers.deep_view()[k] == x@);
                }
            }
            assert(maintainers.deep_view() =~= prev.push(x@));
            assert(maintainers.deep_view() =~= seq![e@.pubkey] + tagged_view.take(i + 1));
        }
        i += 1;
    }
    assert(tagged_view.take(n as int) =~= tagged_view);
    let relays = tag_multi_values(e, "relays");
    let git_server_urls = tag_multi_values(e, "clone");
    let coordinate = Coordinate {
        kind: REPO_REF_KIND,
        public_key: e.pubkey.clone(),
        identifier: identifier.clone(),
    };
    let mut events: Vec<AnnouncementEntry> = Vec::new();
    events.push(AnnouncementEntry { coordinate, event: e.duplicate() });
    Ok(RepoRef { identifier, maintainers, relays, git_server_urls, events })
}

/// Add a key to a list that acts as a set: nothing changes when the key is
/// already there.
pub(crate) fn push_unique(m: &mut Vec<String>, x: &String)
    ensures
        final(m).deep_view() == if old(m).deep_view().contains(x@) {
            old(m).deep_view()
        } else {
            old(m).deep_view().push(x@)
        },
        final(m).deep_view().contains(x@),
        forall|y: Seq<char>| old(m).deep_view().contains(y) ==> final(m).deep_view().contains(y),
        (forall|p: int, q: int|
            0 <= p < q < old(m).deep_view().len() ==> old(m).deep_view()[p]
                != old(m).deep_view()[q]) ==> (forall|p: int, q: int|
            0 <= p < q < final(m).deep_view().len() ==> final(m).deep_view()[p]
                != final(m).deep_view()[q]),
{
    let ghost prev = m.deep_view();
    if !vec_contains_str(m, x.as_str()) {
        m.push(x.clone());
        proof {
            assert forall|k: int| 0 <= k < m@.len() implies #[trigger] m.deep_view()[k]
                == prev.push(x@)[k] by {
                if k < prev.len() {
                    assert(m.deep_view()[k] == prev[k]);
                } else {
                    assert(m.deep_view()[k] == x@);
                }
            }
            assert(m.deep_view() =~= prev.push(x@));
            assert(m.deep_view()[prev.len() as int] == x@);
            assert forall|y: Seq<char>| prev.contains(y) implies m.deep_view().contains(y) by {
                let ii = choose|ii: int| 0 <= ii < prev.len() && prev[ii] == y;
                assert(m.deep_view()[ii] == y);
            }
            if forall|p: int, q: int| 0 <= p < q < prev.len() ==> prev[p] != prev[q] {
                assert forall|p: int, q: int| 0 <= p < q < m.deep_view().len() implies m
                    .deep_view()[p] != m.deep_view()[q] by {
                    if q == prev.len() {
                        assert(m.deep_view()[q] == x@);
                        assert(m.deep_view()[p] == prev[p]);
                        if prev[p] == x@ {
                            assert(prev.contains(x@));
                        }
                    } else {
                        assert(m.deep_view()[p] == prev[p] && m.deep_view()[q] == prev[q]);
                    }
                }
            }
        }
    }
}

/// Resolution failed: no announcement reachable from the seed.
#[derive(Clone, Copy, PartialEq, Eq, Structural, Debug)]
pub enum ResolveError {
    RepoNotFound,
}

/// An announcement of the repository `id`: the announcement kind, carrying
/// `id` as its identifier.
pub open spec fn is_announcement_for(e: EventView, id: Seq<char>) -> bool {
    e.kind == REPO_REF_KIND && event_identifier_view(e) == Some(id)
}

/// The event is in one of the two caches.
pub open spec fn in_caches(global: Seq<EventView>, local: Seq<EventView>, e: EventView) -> bool {
    global.contains(e) || local.contains(e)
}

/// A set of keys closed under maintainer discovery: it holds every seed —
/// or, with no seed, every cached announcement's author — and every key that
/// a cached announcement by one of its members lists as a maintainer. The
/// discovered maintainer set is the least such set.
pub open spec fn discovery_closed_set(
    global: Seq<EventView>,
    local: Seq<EventView>,
    id: Seq<char>,
    seeds: Seq<Seq<char>>,
    s: Set<Seq<char>>,
) -> bool {
    &&& forall|k: int| 0 <= k < seeds.len() ==> s.contains(#[trigger] seeds[k])
    &&& seeds.len() == 0 ==> forall|e: EventView|
        #![trigger is_announcement_for(e, id)]
        in_caches(global, local, e) && is_announcement_for(e, id) ==> s.contains(e.pubkey)
    &&& forall|e: EventView, x: Seq<char>|
        #![trigger s.contains(e.pubkey), tag_rest_values(e.tags, "maintainers"@).contains(x)]
        in_caches(global, local, e) && is_announcement_for(e, id) && s.contains(e.pubkey)
            && tag_rest_values(e.tags, "maintainers"@).contains(x) ==> s.contains(x)
}

pub(crate) open spec fn count_trues(s: Seq<bool>) -> nat
    decreases s.len(),
{
    if s.len() == 0 {
        0
    } else {
        count_trues(s.drop_last()) + if s.last() {
            1nat
        } else {
            0nat
        }
    }
}

pub(crate) proof fn lemma_count_trues_bound(s: Seq<bool>)
    ensures
        count_trues(s) <= s.len(),
    decreases s.len(),
{
    if s.len() > 0 {
        lemma_count_trues_bound(s.drop_last());
    }
}

pub(crate) proof fn lemma_count_trues_update(s: Seq<bool>, j: int)
    requires
        0 <= j < s.len(),
        !s[j],
    ensures
        count_trues(s.update(j, true)) == count_trues(s) + 1,
    decreases s.len(),
{
    let s2 = s.update(j, true);
    if j == s.len() - 1 {
        assert(s2.drop_last() =~= s.drop_last());
    } else {
        assert(s2.drop_last() =~= s.drop_last().update(j, true));
        lemma_count_trues_update(s.drop_last(), j);
    }
}

pub(crate) proof fn lemma_filter_element_in(s: Seq<EventView>, pred: spec_fn(EventView) -> bool, i: int)
    requires
        0 <= i < s.filter(pred).len(),
    ensures
        s.contains(s.filter(pred)[i]),
    decreases s.len(),
{
    reveal(Seq::filter);
    if s.len() > 0 {
        let sub = s.drop_last().filter(pred);
        if pred(s.last()) && i == sub.len() {
            assert(s[s.len() - 1] == s.filter(pred)[i]);
        } else {
            lemma_filter_element_in(s.drop_last(), pred, i);
            let j = choose|j: int|
                0 <= j < s.drop_last().len() && s.drop_last()[j] == s.drop_last().filter(pred)[i];
            assert(s[j] == s.filter(pred)[i]);
        }
    }
}

/// The filter the resolver queries with: announcements of this repository.
fn announcement_filter(identifier: &str) -> (r: Vec<Filter>)
    ensures
        r.deep_view().len() == 1,
        forall|e: EventView|
            #[trigger] matches_any_filter(r.deep_view(), e) == is_announcement_for(
                e,
                identifier@,
            ),
{
    let mut kinds: Vec<u16> = Vec::new();
    kinds.push(REPO_REF_KIND);
    let mut identifiers: Vec<String> = Vec::new();
    let mut ident = String::new();
    ident.append(identifier);
    identifiers.push(ident);
    let mut f = Filter::any();
    f.kinds = kinds;
    f.identifiers = identifiers;
    let mut r: Vec<Filter> = Vec::new();
    r.push(f);
    proof {
        assert forall|e: EventView| #[trigger] matches_any_filter(r.deep_view(), e)
            == is_announcement_for(e, identifier@) by {
            let fv = r.deep_view()[0];
            assert(fv.kinds =~= seq![REPO_REF_KIND]);
            assert(fv.identifiers =~= seq![identifier@]);
            assert(fv.authors.len() == 0 && fv.event_refs.len() == 0 && fv.coord_refs.len() == 0);
            if filter_matches(fv, e) {
                assert(fv.kinds.contains(e.kind));
                assert(fv.kinds[0] == REPO_REF_KIND);
                assert(e.kind == REPO_REF_KIND);
                let d = choose|d: Seq<char>|
                    event_identifier_view(e) == Some(d) && fv.identifiers.contains(d);
                assert(d == identifier@);
            }
            if is_announcement_for(e, identifier@) {
                assert(fv.kinds[0] == REPO_REF_KIND);
                assert(fv.kinds.contains(e.kind));
                assert(fv.identifiers[0] == identifier@);
                assert(fv.identifiers.contains(identifier@));
                assert(filter_matches(fv, e));
                assert(matches_any_filter(r.deep_view(), e));
            }
        }
    }
    r
}

/// Resolve the repository identified by `identifier` from the two caches.
///
/// Maintainers are discovered recursively: starting from the seed keys — or,
/// with no seed, from every author that announced the repository — each
/// admitted announcement's `maintainers` tag extends the set, and
/// announcements by newly discovered maintainers are admitted in turn, to a
/// fixpoint. The relays and VCS servers come from the newest admitted
/// announcement. Resolution fails exactly when no announcement of the
/// repository by a seed author is cached (with no seed: when none is cached
/// at all).
#[verifier::rlimit(100)]
#[verifier::spinoff_prover]
pub fn get_repo_ref_from_cache(
    local: &EventCache,
    global: &EventCache,
    identifier: &str,
    seed_maintainers: &Vec<String>,
) -> (r: Result<RepoRef, ResolveError>)
    ensures
        match r {
            Ok(rr) => {
                &&& rr.identifier@ == identifier@
                &&& rr.maintainers@.len() >= 1
                &&& forall|k: int|
                    0 <= k < rr.events@.len() ==> in_caches(
                        global@,
                        local@,
                        (#[trigger] rr.events@[k]).event@,
                    ) && is_announcement_for(rr.events@[k].event@, identifier@)
                        && rr.events@[k].coordinate@.kind == REPO_REF_KIND
                        && rr.events@[k].coordinate@.public_key == rr.events@[k].event@.pubkey
                        && rr.events@[k].coordinate@.identifier == identifier@
                &&& forall|k: int|
                    0 <= k < seed_maintainers.deep_view().len()
                        ==> rr.maintainers.deep_view().contains(
                        #[trigger] seed_maintainers.deep_view()[k],
                    )
                &&& forall|p: int, q: int|
                    0 <= p < q < rr.maintainers.deep_view().len()
                        ==> rr.maintainers.deep_view()[p] != rr.maintainers.deep_view()[q]
                &&& forall|e: EventView, x: Seq<char>|
                    #![trigger rr.maintainers.deep_view().contains(e.pubkey), tag_rest_values(e.tags, "maintainers"@).contains(x)]
                    in_caches(global@, local@, e) && is_announcement_for(e, identifier@)
                        && rr.maintainers.deep_view().contains(e.pubkey) && tag_rest_values(
                        e.tags,
                        "maintainers"@,
                    ).contains(x) ==> rr.maintainers.deep_view().contains(x)
                &&& seed_maintainers.deep_view().len() == 0 ==> forall|e: EventView|
                    #![trigger is_announcement_for(e, identifier@)]
                    in_caches(global@, local@, e) && is_announcement_for(e, identifier@)
                        ==> rr.maintainers.deep_view().contains(e.pubkey)
                &&& forall|s: Set<Seq<char>>, k: int|
                    #![trigger s.contains(rr.maintainers.deep_view()[k])]
                    discovery_closed_set(
                        global@,
                        local@,
                        identifier@,
                        seed_maintainers.deep_view(),
                        s,
                    ) && 0 <= k < rr.maintainers.deep_view().len() ==> s.contains(
                        rr.maintainers.deep_view()[k],
                    )
                &&& seed_maintainers.deep_view().len() > 0 ==> exists|e: EventView|
                    in_caches(global@, local@, e) && is_announcement_for(e, identifier@)
                        && seed_maintainers.deep_view().contains(e.pubkey)
                &&& forall|k: int|
                    #![trigger rr.maintainers.deep_view()[k]]
                    0 <= k < rr.maintainers.deep_view().len() && (exists|e: EventView|
                        in_caches(global@, local@, e) && is_announcement_for(e, identifier@)
                            && e.pubkey == rr.maintainers.deep_view()[k]) ==> exists|p: int|
                        0 <= p < rr.events@.len() && (#[trigger] rr.events@[p]).event@.pubkey
                            == rr.maintainers.deep_view()[k]
                &&& forall|p: int, e2: EventView|
                    #![trigger rr.events@[p], is_announcement_for(e2, identifier@)]
                    0 <= p < rr.events@.len() && in_caches(global@, local@, e2)
                        && is_announcement_for(e2, identifier@) && e2.pubkey
                        == rr.events@[p].event@.pubkey ==> e2.created_at
                        <= rr.events@[p].event@.created_at
                &&& exists|e: EventView|
                    in_caches(global@, local@, e) && is_announcement_for(e, identifier@)
                        && rr.maintainers.deep_view().contains(e.pubkey)
                        && rr.relays.deep_view() == tag_rest_values(e.tags, "relays"@)
                        && rr.git_server_urls.deep_view() == tag_rest_values(e.tags, "clone"@)
                        && (forall|e2: EventView|
                        in_caches(global@, local@, e2) && is_announcement_for(e2, identifier@)
                            && rr.maintainers.deep_view().contains(e2.pubkey)
                            ==> e2.created_at <= e.created_at)
            },
            Err(err) => {
                &&& err == ResolveError::RepoNotFound
                &&& forall|e: EventView|
                    in_caches(global@, local@, e) && is_announcement_for(e, identifier@)
                        ==> !(seed_maintainers.deep_view().len() == 0
                        || seed_maintainers.deep_view().contains(e.pubkey))
            },
        },
{
    let filters = announcement_filter(identifier);
    let ghost pred = |ev: EventView| matches_any_filter(filters.deep_view(), ev);
    let mut candidates = global.query(&filters);
    let mut from_local = local.query(&filters);
    let ghost gdv = candidates.deep_view();
    let ghost ldv = from_local.deep_view();
    candidates.append(&mut from_local);
    proof {
        assert forall|j: int| 0 <= j < candidates.deep_view().len() implies #[trigger] candidates
            .deep_view()[j] == (gdv + ldv)[j] by {
            assert(candidates.deep_view()[j] == candidates@[j]@);
        }
        assert(candidates.deep_view() =~= gdv + ldv);
        assert forall|j: int| 0 <= j < candidates.deep_view().len() implies in_caches(
            global@,
            local@,
            #[trigger] candidates.deep_view()[j],
        ) && is_announcement_for(candidates.deep_view()[j], identifier@) by {
            let e = candidates.deep_view()[j];
            if j < gdv.len() {
                lemma_filter_element_in(global@, pred, j);
            } else {
                lemma_filter_element_in(local@, pred, j - gdv.len());
            }
        }
    }
    let ghost cands = candidates.deep_view();
    let n_cand = candidates.len();

    // Seed the maintainer set: the given seeds, or every candidate author.
    let ghost seeds = seed_maintainers.deep_view();
    let mut m: Vec<String> = Vec::new();
    if seed_maintainers.len() > 0 {
        let ns = seed_maintainers.len();
        let mut i: usize = 0;
        while i < ns
            invariant
                i <= ns,
                ns == seed_maintainers@.len(),
                seeds == seed_maintainers.deep_view(),
                forall|p: int, q: int|
                    0 <= p < q < m.deep_view().len() ==> m.deep_view()[p] != m.deep_view()[q],
                forall|k: int| 0 <= k < i ==> m.deep_view().contains(#[trigger] seeds[k]),
                forall|k: int|
                    0 <= k < m.deep_view().len() ==> seeds.contains(#[trigger] m.deep_view()[k]),
            decreases ns - i,
        {
            assert(seeds[i as int] == seed_maintainers@[i as int]@);
            push_unique(&mut m, &seed_maintainers[i]);
            i += 1;
        }
        proof {
            assert forall|s: Set<Seq<char>>, k: int|
                #![trigger s.contains(m.deep_view()[k])]
                discovery_closed_set(global@, local@, identifier@, seeds, s) && 0 <= k
                    < m.deep_view().len() implies s.contains(m.deep_view()[k]) by {
                assert(seeds.contains(m.deep_view()[k]));
                let si = choose|si: int| 0 <= si < seeds.len() && seeds[si] == m.deep_view()[k];
                assert(s.contains(seeds[si]));
            }
        }
    } else {
        let mut i: usize = 0;
        while i < n_cand
            invariant
                i <= n_cand,
                n_cand == candidates@.len(),
                candidates.deep_view() == cands,
                seeds == seed_maintainers.deep_view(),
                seeds.len() == 0,
                forall|j: int|
                    0 <= j < cands.len() ==> in_caches(global@, local@, #[trigger] cands[j])
                        && is_announcement_for(cands[j], identifier@),
                forall|p: int, q: int|
                    0 <= p < q < m.deep_view().len() ==> m.deep_view()[p] != m.deep_view()[q],
                forall|k: int| 0 <= k < i ==> m.deep_view().contains(#[trigger] cands[k].pubkey),
                forall|s: Set<Seq<char>>, k: int|
                    #![trigger s.contains(m.deep_view()[k])]
                    discovery_closed_set(global@, local@, identifier@, seeds, s) && 0 <= k
                        < m.deep_view().len() ==> s.contains(m.deep_view()[k]),
            decreases n_cand - i,
        {
            let ghost prev = m.deep_view();
            assert(cands[i as int] == candidates@[i as int]@);
            push_unique(&mut m, &candidates[i].pubkey);
            proof {
                assert(cands[i as int].pubkey == candidates@[i as int].pubkey@);
                assert(in_caches(global@, local@, cands[i as int]) && is_announcement_for(
                    cands[i as int],
                    identifier@,
                ));
                assert forall|s: Set<Seq<char>>, k: int|
                    #![trigger s.contains(m.deep_view()[k])]
                    discovery_closed_set(global@, local@, identifier@, seeds, s) && 0 <= k
                        < m.deep_view().len() implies s.contains(m.deep_view()[k]) by {
                    if k < prev.len() {
                        assert(m.deep_view()[k] == prev[k]);
                        assert(s.contains(prev[k]));
                    } else {
                        assert(m.deep_view()[k] == cands[i as int].pubkey);
                        assert(s.contains(cands[i as int].pubkey));
                    }
                }
            }
            i += 1;
        }
    }

    // Closure: admit every unused candidate authored by a known maintainer,
    // and let its maintainers tag extend the set.
    let mut used: Vec<bool> = Vec::new();
    let mut fill: usize = 0;
    while fill < n_cand
        invariant
            fill <= n_cand,
            used@.len() == fill,
            forall|k: int| 0 <= k < fill ==> !used@[k],
        decreases n_cand - fill,
    {
        used.push(false);
        fill += 1;
    }
    let mut repo_events: Vec<Event> = Vec::new();
    let mut used_count: usize = 0;
    proof {
        lemma_count_trues_zero(used@);
    }
    loop
        invariant
            n_cand == candidates@.len(),
            candidates.deep_view() == cands,
            used@.len() == n_cand,
            used_count == count_trues(used@),
            used_count <= n_cand,
            repo_events@.len() == used_count,
            forall|j: int|
                0 <= j < n_cand && used@[j] ==> repo_events.deep_view().contains(
                    #[trigger] cands[j],
                ),
            forall|k: int|
                0 <= k < repo_events.deep_view().len() ==> m.deep_view().contains(
                    (#[trigger] repo_events.deep_view()[k]).pubkey,
                ),
            forall|k: int|
                0 <= k < repo_events.deep_view().len() ==> cands.contains(
                    #[trigger] repo_events.deep_view()[k],
                ),
            forall|p: int, q: int|
                0 <= p < q < m.deep_view().len() ==> m.deep_view()[p] != m.deep_view()[q],
            forall|k: int| 0 <= k < seeds.len() ==> m.deep_view().contains(#[trigger] seeds[k]),
            seeds.len() == 0 ==> forall|k: int|
                0 <= k < cands.len() ==> m.deep_view().contains(#[trigger] cands[k].pubkey),
            forall|s: Set<Seq<char>>, k: int|
                #![trigger s.contains(m.deep_view()[k])]
                discovery_closed_set(global@, local@, identifier@, seeds, s) && 0 <= k
                    < m.deep_view().len() ==> s.contains(m.deep_view()[k]),
            forall|k: int, x: Seq<char>|
                #![trigger tag_rest_values(repo_events.deep_view()[k].tags, "maintainers"@).contains(x)]
                0 <= k < repo_events.deep_view().len() && tag_rest_values(
                    repo_events.deep_view()[k].tags,
                    "maintainers"@,
                ).contains(x) ==> m.deep_view().contains(x),
            seeds.len() > 0 && used_count == 0 ==> forall|k: int|
                0 <= k < m.deep_view().len() ==> seeds.contains(#[trigger] m.deep_view()[k]),
            seeds.len() > 0 && used_count >= 1 ==> exists|jj: int|
                0 <= jj < cands.len() && seeds.contains((#[trigger] cands[jj]).pubkey),
            forall|j: int|
                0 <= j < cands.len() ==> in_caches(global@, local@, #[trigger] cands[j])
                    && is_announcement_for(cands[j], identifier@),
        ensures
            forall|j: int|
                0 <= j < n_cand && !used@[j] ==> !m.deep_view().contains(
                    #[trigger] cands[j].pubkey,
                ),
            used@.len() == n_cand,
            used_count == count_trues(used@),
            repo_events@.len() == used_count,
            forall|j: int|
                0 <= j < n_cand && used@[j] ==> repo_events.deep_view().contains(
                    #[trigger] cands[j],
                ),
            forall|k: int|
                0 <= k < repo_events.deep_view().len() ==> m.deep_view().contains(
                    (#[trigger] repo_events.deep_view()[k]).pubkey,
                ),
            forall|k: int|
                0 <= k < repo_events.deep_view().len() ==> cands.contains(
                    #[trigger] repo_events.deep_view()[k],
                ),
            forall|p: int, q: int|
                0 <= p < q < m.deep_view().len() ==> m.deep_view()[p] != m.deep_view()[q],
            forall|k: int| 0 <= k < seeds.len() ==> m.deep_view().contains(#[trigger] seeds[k]),
            seeds.len() == 0 ==> forall|k: int|
                0 <= k < cands.len() ==> m.deep_view().contains(#[trigger] cands[k].pubkey),
            forall|s: Set<Seq<char>>, k: int|
                #![trigger s.contains(m.deep_view()[k])]
                discovery_closed_set(global@, local@, identifier@, seeds, s) && 0 <= k
                    < m.deep_view().len() ==> s.contains(m.deep_view()[k]),
            forall|k: int, x: Seq<char>|
                #![trigger tag_rest_values(repo_events.deep_view()[k].tags, "maintainers"@).contains(x)]
                0 <= k < repo_events.deep_view().len() && tag_rest_values(
                    repo_events.deep_view()[k].tags,
                    "maintainers"@,
                ).contains(x) ==> m.deep_view().contains(x),
            seeds.len() > 0 && used_count == 0 ==> forall|k: int|
                0 <= k < m.deep_view().len() ==> seeds.contains(#[trigger] m.deep_view()[k]),
            seeds.len() > 0 && used_count >= 1 ==> exists|jj: int|
                0 <= jj < cands.len() && seeds.contains((#[trigger] cands[jj]).pubkey),
        decreases n_cand - used_count,
    {
        // Find an unused candidate authored by a known maintainer.
        let mut found: Option<usize> = None;
        let mut j: usize = 0;
        while j < n_cand && found.is_none()
            invariant
                j <= n_cand,
                n_cand == candidates@.len(),
                candidates.deep_view() == cands,
                used@.len() == n_cand,
                found is None ==> forall|k: int|
                    0 <= k < j && !used@[k] ==> !m.deep_view().contains(
                        #[trigger] cands[k].pubkey,
                    ),
                found matches Some(f) ==> f < n_cand && !used@[f as int] && m.deep_view().contains(
                    cands[f as int].pubkey,
                ),
            decreases n_cand - j, (if found is None { 1int } else { 0int }),
        {
            assert(cands[j as int] == candidates@[j as int]@);
            if !used[j] && vec_contains_str(&m, candidates[j].pubkey.as_str()) {
                found = Some(j);
            } else {
                j += 1;
            }
        }
        let j = match found {
            Some(j) => j,
            None => {
                break;
            },
        };
        proof {
            lemma_count_trues_update(used@, j as int);
            lemma_count_trues_bound(used@.update(j as int, true));
        }
        let ghost used_before = used@;
        let ghost first_admission = used_count == 0;
        used.set(j, true);
        used_count += 1;
        proof {
            if seeds.len() > 0 && first_admission {
                // The first admitted announcement is authored by a seed.
                assert(m.deep_view().contains(cands[j as int].pubkey));
                let mi = choose|mi: int|
                    0 <= mi < m.deep_view().len() && m.deep_view()[mi] == cands[j as int].pubkey;
                assert(seeds.contains(m.deep_view()[mi]));
            }
        }
        let ghost re_before = repo_events.deep_view();
        let picked = candidates[j].duplicate();
        repo_events.push(picked);
        proof {
            assert forall|k: int| 0 <= k < repo_events@.len() implies #[trigger] repo_events
                .deep_view()[k] == re_before.push(cands[j as int])[k] by {
                if k < re_before.len() {
                    assert(repo_events.deep_view()[k] == re_before[k]);
                } else {
                    assert(repo_events.deep_view()[k] == picked@);
                }
            }
            assert(repo_events.deep_view() =~= re_before.push(cands[j as int]));
            assert(repo_events.deep_view()[re_before.len() as int] == cands[j as int]);
            assert forall|y: EventView| re_before.contains(y) implies repo_events
                .deep_view().contains(y) by {
                let ii = choose|ii: int| 0 <= ii < re_before.len() && re_before[ii] == y;
                assert(repo_events.deep_view()[ii] == y);
            }
            assert forall|jj: int| 0 <= jj < n_cand && used@[jj] implies repo_events
                .deep_view().contains(#[trigger] cands[jj]) by {
                if jj != j {
                    assert(used_before[jj]);
                }
            }
            assert forall|k: int| 0 <= k < repo_events.deep_view().len() implies m
                .deep_view().contains((#[trigger] repo_events.deep_view()[k]).pubkey) by {
                if k < re_before.len() {
                    assert(repo_events.deep_view()[k] == re_before[k]);
                } else {
                    assert(repo_events.deep_view()[k] == cands[j as int]);
                    assert(m.deep_view().contains(cands[j as int].pubkey));
                }
            }
        }
        // Extend the maintainer set from the admitted announcement.
        let tagged = tag_multi_values(&candidates[j], "maintainers");
        let ghost tagged_view = tagged.deep_view();
        assert(tagged_view == tag_rest_values(cands[j as int].tags, "maintainers"@));
        let nt = tagged.len();
        let mut t: usize = 0;
        while t < nt
            invariant
                t <= nt,
                nt == tagged@.len(),
                tagged.deep_view() == tagged_view,
                tagged_view == tag_rest_values(cands[j as int].tags, "maintainers"@),
                0 <= j < cands.len(),
                n_cand == cands.len(),
                forall|jj: int|
                    0 <= jj < cands.len() ==> in_caches(global@, local@, #[trigger] cands[jj])
                        && is_announcement_for(cands[jj], identifier@),
                forall|p: int, q: int|
                    0 <= p < q < m.deep_view().len() ==> m.deep_view()[p] != m.deep_view()[q],
                forall|k: int| 0 <= k < seeds.len() ==> m.deep_view().contains(#[trigger] seeds[k]),
                seeds.len() == 0 ==> forall|k: int|
                    0 <= k < cands.len() ==> m.deep_view().contains(#[trigger] cands[k].pubkey),
                forall|s: Set<Seq<char>>, k: int|
                    #![trigger s.contains(m.deep_view()[k])]
                    discovery_closed_set(global@, local@, identifier@, seeds, s) && 0 <= k
                        < m.deep_view().len() ==> s.contains(m.deep_view()[k]),
                used@.len() == n_cand,
                1 <= used_count,
                seeds.len() > 0 ==> exists|jj: int|
                    0 <= jj < cands.len() && seeds.contains((#[trigger] cands[jj]).pubkey),
                forall|k: int|
                    0 <= k < repo_events.deep_view().len() ==> m.deep_view().contains(
                        (#[trigger] repo_events.deep_view()[k]).pubkey,
                    ),
                repo_events.deep_view().len() >= 1,
                repo_events.deep_view()[repo_events.deep_view().len() - 1] == cands[j as int],
                forall|k: int, x: Seq<char>|
                    #![trigger tag_rest_values(repo_events.deep_view()[k].tags, "maintainers"@).contains(x)]
                    0 <= k < repo_events.deep_view().len() - 1 && tag_rest_values(
                        repo_events.deep_view()[k].tags,
                        "maintainers"@,
                    ).contains(x) ==> m.deep_view().contains(x),
                forall|v: int| 0 <= v < t ==> m.deep_view().contains(#[trigger] tagged_view[v]),
            decreases nt - t,
        {
            let ghost prev = m.deep_view();
            assert(tagged_view[t as int] == tagged@[t as int]@);
            push_unique(&mut m, &tagged[t]);
            proof {
                assert(tagged_view.contains(tagged_view[t as int]));
                assert forall|s: Set<Seq<char>>, k: int|
                    #![trigger s.contains(m.deep_view()[k])]
                    discovery_closed_set(global@, local@, identifier@, seeds, s) && 0 <= k
                        < m.deep_view().len() implies s.contains(m.deep_view()[k]) by {
                    if prev.contains(m.deep_view()[k]) {
                        let ii = choose|ii: int| 0 <= ii < prev.len() && prev[ii] == m.deep_view()[k];
                        assert(s.contains(prev[ii]));
                    } else {
                        assert(m.deep_view()[k] == tagged_view[t as int]);
                        // The listed key is reached through the admitted
                        // announcement's author, already in every closed set.
                        assert(prev.contains(cands[j as int].pubkey));
                        let ai = choose|ai: int|
                            0 <= ai < prev.len() && prev[ai] == cands[j as int].pubkey;
                        assert(s.contains(prev[ai]));
                        assert(s.contains(cands[j as int].pubkey));
                        assert(in_caches(global@, local@, cands[j as int]) && is_announcement_for(
                            cands[j as int],
                            identifier@,
                        ));
                        assert(tag_rest_values(cands[j as int].tags, "maintainers"@).contains(
                            tagged_view[t as int],
                        ));
                    }
                }
            }
            t += 1;
        }
        proof {
            assert forall|k: int, x: Seq<char>|
                #![trigger tag_rest_values(repo_events.deep_view()[k].tags, "maintainers"@).contains(x)]
                0 <= k < repo_events.deep_view().len() && tag_rest_values(
                    repo_events.deep_view()[k].tags,
                    "maintainers"@,
                ).contains(x) implies m.deep_view().contains(x) by {
                if k == repo_events.deep_view().len() - 1 {
                    assert(repo_events.deep_view()[k] == cands[j as int]);
                    assert(tag_rest_values(cands[j as int].tags, "maintainers"@) == tagged_view);
                    let v = choose|v: int| 0 <= v < tagged_view.len() && tagged_view[v] == x;
                    assert(m.deep_view().contains(tagged_view[v]));
                }
            }
        }
    }

    // Every cached announcement by a discovered maintainer was admitted.
    proof {
        assert forall|e: EventView|
            in_caches(global@, local@, e) && is_announcement_for(e, identifier@)
                && m.deep_view().contains(e.pubkey) implies repo_events.deep_view().contains(
            e,
        ) by {
            let pred0 = |ev: EventView| matches_any_filter(filters.deep_view(), ev);
            if global@.contains(e) {
                let gi = choose|gi: int| 0 <= gi < global@.len() && global@[gi] == e;
                Seq::lemma_filter_contains(global@, pred0, gi);
                let fi = choose|fi: int|
                    0 <= fi < global@.filter(pred0).len() && global@.filter(pred0)[fi] == e;
                assert(cands[fi] == e);
                assert(used@[fi]) by {
                    if !used@[fi] {
                        assert(!m.deep_view().contains(cands[fi].pubkey));
                    }
                }
                assert(repo_events.deep_view().contains(cands[fi]));
            } else {
                let li = choose|li: int| 0 <= li < local@.len() && local@[li] == e;
                Seq::lemma_filter_contains(local@, pred0, li);
                let fi = choose|fi: int|
                    0 <= fi < local@.filter(pred0).len() && local@.filter(pred0)[fi] == e;
                assert(cands[gdv.len() + fi] == e);
                assert(used@[gdv.len() + fi]) by {
                    if !used@[gdv.len() + fi] {
                        assert(!m.deep_view().contains(cands[gdv.len() + fi].pubkey));
                    }
                }
                assert(repo_events.deep_view().contains(cands[gdv.len() + fi]));
            }
        }
    }

    if repo_events.len() == 0 {
        proof {
            lemma_count_trues_zero_all(used@, used_count as nat);
            assert forall|e: EventView|
                in_caches(global@, local@, e) && is_announcement_for(e, identifier@) implies !(
            seeds.len() == 0 || seeds.contains(e.pubkey)) by {
                if seeds.len() == 0 || seeds.contains(e.pubkey) {
                    let pred0 = |ev: EventView| matches_any_filter(filters.deep_view(), ev);
                    if global@.contains(e) {
                        let gi = choose|gi: int| 0 <= gi < global@.len() && global@[gi] == e;
                        Seq::lemma_filter_contains(global@, pred0, gi);
                        let fi = choose|fi: int|
                            0 <= fi < global@.filter(pred0).len() && global@.filter(pred0)[fi]
                                == e;
                        assert(cands[fi] == e);
                        assert(!used@[fi]);
                        if seeds.len() == 0 {
                            assert(m.deep_view().contains(cands[fi].pubkey));
                        } else {
                            let sk = choose|sk: int| 0 <= sk < seeds.len() && seeds[sk] == e.pubkey;
                            assert(m.deep_view().contains(seeds[sk]));
                        }
                        assert(false);
                    } else {
                        let li = choose|li: int| 0 <= li < local@.len() && local@[li] == e;
                        Seq::lemma_filter_contains(local@, pred0, li);
                        let fi = choose|fi: int|
                            0 <= fi < local@.filter(pred0).len() && local@.filter(pred0)[fi] == e;
                        assert(cands[gdv.len() + fi] == e);
                        assert(!used@[gdv.len() + fi]);
                        if seeds.len() == 0 {
                            assert(m.deep_view().contains(cands[gdv.len() + fi].pubkey));
                        } else {
                            let sk = choose|sk: int| 0 <= sk < seeds.len() && seeds[sk] == e.pubkey;
                            assert(m.deep_view().contains(seeds[sk]));
                        }
                        assert(false);
                    }
                }
            }
        }
        return Err(ResolveError::RepoNotFound);
    }

    // The authoritative announcement: the newest admitted one.
    let nr = repo_events.len();
    let mut best: usize = 0;
    let mut i: usize = 1;
    while i < nr
        invariant
            1 <= i <= nr,
            nr == repo_events@.len(),
            best < i,
            forall|k: int|
                0 <= k < i ==> (#[trigger] repo_events.deep_view()[k]).created_at
                    <= repo_events.deep_view()[best as int].created_at,
        decreases nr - i,
    {
        proof {
            assert(repo_events.deep_view()[i as int] == repo_events@[i as int]@);
            assert(repo_events.deep_view()[best as int] == repo_events@[best as int]@);
        }
        if repo_events[i].created_at > repo_events[best].created_at {
            best = i;
        }
        i += 1;
    }
    assert(cands.contains(repo_events.deep_view()[best as int]));
    let relays = tag_multi_values(&repo_events[best], "relays");
    let git_server_urls = tag_multi_values(&repo_events[best], "clone");
    proof {
        let be = repo_events.deep_view()[best as int];
        assert(relays.deep_view() == tag_rest_values(be.tags, "relays"@));
        assert(in_caches(global@, local@, be) && is_announcement_for(be, identifier@));
        assert(m.deep_view().contains(be.pubkey));
        // Nothing a maintainer announced in either cache is newer.
        assert forall|e2: EventView|
            in_caches(global@, local@, e2) && is_announcement_for(e2, identifier@)
                && m.deep_view().contains(e2.pubkey) implies e2.created_at
            <= be.created_at by {
            let pred0 = |ev: EventView| matches_any_filter(filters.deep_view(), ev);
            if global@.contains(e2) {
                let gi = choose|gi: int| 0 <= gi < global@.len() && global@[gi] == e2;
                Seq::lemma_filter_contains(global@, pred0, gi);
                let fi = choose|fi: int|
                    0 <= fi < global@.filter(pred0).len() && global@.filter(pred0)[fi] == e2;
                assert(cands[fi] == e2);
                assert(used@[fi]) by {
                    if !used@[fi] {
                        assert(!m.deep_view().contains(cands[fi].pubkey));
                    }
                }
                assert(repo_events.deep_view().contains(cands[fi]));
                let ri = choose|ri: int|
                    0 <= ri < repo_events.deep_view().len() && repo_events.deep_view()[ri] == e2;
                assert(repo_events.deep_view()[ri].created_at <= be.created_at);
            } else {
                let li = choose|li: int| 0 <= li < local@.len() && local@[li] == e2;
                Seq::lemma_filter_contains(local@, pred0, li);
                let fi = choose|fi: int|
                    0 <= fi < local@.filter(pred0).len() && local@.filter(pred0)[fi] == e2;
                assert(cands[gdv.len() + fi] == e2);
                assert(used@[gdv.len() + fi]) by {
                    if !used@[gdv.len() + fi] {
                        assert(!m.deep_view().contains(cands[gdv.len() + fi].pubkey));
                    }
                }
                assert(repo_events.deep_view().contains(cands[gdv.len() + fi]));
                let ri = choose|ri: int|
                    0 <= ri < repo_events.deep_view().len() && repo_events.deep_view()[ri] == e2;
                assert(repo_events.deep_view()[ri].created_at <= be.created_at);
            }
        }
    }

    // One entry per maintainer that announced: that maintainer's newest
    // admitted announcement.
    let nm = m.len();
    let mut entries: Vec<AnnouncementEntry> = Vec::new();
    let mut mi: usize = 0;
    while mi < nm
        invariant
            mi <= nm,
            nm == m@.len(),
            n_cand == candidates@.len(),
            candidates.deep_view() == cands,
            nr == repo_events@.len(),
            forall|k: int|
                0 <= k < repo_events.deep_view().len() ==> cands.contains(
                    #[trigger] repo_events.deep_view()[k],
                ),
            forall|jj: int|
                0 <= jj < cands.len() ==> in_caches(global@, local@, #[trigger] cands[jj])
                    && is_announcement_for(cands[jj], identifier@),
            forall|k: int|
                0 <= k < entries@.len() ==> in_caches(
                    global@,
                    local@,
                    (#[trigger] entries@[k]).event@,
                ) && is_announcement_for(entries@[k].event@, identifier@)
                    && entries@[k].coordinate@.kind == REPO_REF_KIND
                    && entries@[k].coordinate@.public_key == entries@[k].event@.pubkey
                    && entries@[k].coordinate@.identifier == identifier@,
            forall|mi2: int|
                #![trigger m.deep_view()[mi2]]
                0 <= mi2 < mi && (exists|rj: int|
                    0 <= rj < repo_events.deep_view().len()
                        && (#[trigger] repo_events.deep_view()[rj]).pubkey == m.deep_view()[mi2])
                    ==> exists|p: int|
                    0 <= p < entries@.len() && (#[trigger] entries@[p]).event@.pubkey
                        == m.deep_view()[mi2],
            forall|p: int, rj: int|
                #![trigger entries@[p], repo_events.deep_view()[rj]]
                0 <= p < entries@.len() && 0 <= rj < repo_events.deep_view().len()
                    && repo_events.deep_view()[rj].pubkey == entries@[p].event@.pubkey
                    ==> repo_events.deep_view()[rj].created_at <= entries@[p].event@.created_at,
            forall|p: int|
                0 <= p < entries@.len() ==> repo_events.deep_view().contains(
                    (#[trigger] entries@[p]).event@,
                ),
        decreases nm - mi,
    {
        let ghost mk = m.deep_view()[mi as int];
        assert(mk == m@[mi as int]@);
        let mut found: Option<usize> = None;
        let mut k: usize = 0;
        while k < nr
            invariant
                k <= nr,
                nr == repo_events@.len(),
                nm == m@.len(),
                mi < nm,
                mk == m.deep_view()[mi as int],
                found matches Some(f) ==> f < nr && repo_events.deep_view()[f as int].pubkey == mk
                    && forall|k2: int|
                    0 <= k2 < k && (#[trigger] repo_events.deep_view()[k2]).pubkey == mk
                        ==> repo_events.deep_view()[k2].created_at
                        <= repo_events.deep_view()[f as int].created_at,
                found is None ==> forall|k2: int|
                    0 <= k2 < k ==> (#[trigger] repo_events.deep_view()[k2]).pubkey != mk,
            decreases nr - k,
        {
            assert(repo_events.deep_view()[k as int] == repo_events@[k as int]@);
            if str_eq(repo_events[k].pubkey.as_str(), m[mi].as_str()) {
                match found {
                    Some(f) => {
                        if repo_events[k].created_at > repo_events[f].created_at {
                            found = Some(k);
                        }
                    },
                    None => {
                        found = Some(k);
                    },
                }
            }
            k += 1;
        }
        let ghost entries_before = entries@;
        if let Some(f) = found {
            let ev = repo_events[f].duplicate();
            proof {
                assert(cands.contains(repo_events.deep_view()[f as int]));
                assert(ev@ == repo_events.deep_view()[f as int]);
                let ci = choose|ci: int| 0 <= ci < cands.len() && cands[ci] == ev@;
                assert(is_announcement_for(cands[ci], identifier@));
            }
            let ident = match event_identifier(&ev) {
                Some(d) => d,
                None => {
                    let mut s = String::new();
                    s.append(identifier);
                    s
                },
            };
            assert(ident@ == identifier@);
            let coordinate = Coordinate {
                kind: REPO_REF_KIND,
                public_key: ev.pubkey.clone(),
                identifier: ident,
            };
            entries.push(AnnouncementEntry { coordinate, event: ev });
            proof {
                assert(entries@[entries_before.len() as int].event@
                    == repo_events.deep_view()[f as int]);
                assert(repo_events.deep_view().contains(
                    entries@[entries_before.len() as int].event@,
                ));
                assert forall|mi2: int|
                    #![trigger m.deep_view()[mi2]]
                    0 <= mi2 < mi + 1 && (exists|rj: int|
                        0 <= rj < repo_events.deep_view().len()
                            && (#[trigger] repo_events.deep_view()[rj]).pubkey
                            == m.deep_view()[mi2]) implies exists|p: int|
                    0 <= p < entries@.len() && (#[trigger] entries@[p]).event@.pubkey
                        == m.deep_view()[mi2] by {
                    if mi2 < mi {
                        let p = choose|p: int|
                            0 <= p < entries_before.len()
                                && (#[trigger] entries_before[p]).event@.pubkey
                                == m.deep_view()[mi2];
                        assert(entries@[p].event@.pubkey == m.deep_view()[mi2]);
                    } else {
                        assert(entries@[entries_before.len() as int].event@.pubkey == mk);
                    }
                }
            }
        } else {
            proof {
                assert forall|mi2: int|
                    #![trigger m.deep_view()[mi2]]
                    0 <= mi2 < mi + 1 && (exists|rj: int|
                        0 <= rj < repo_events.deep_view().len()
                            && (#[trigger] repo_events.deep_view()[rj]).pubkey
                            == m.deep_view()[mi2]) implies exists|p: int|
                    0 <= p < entries@.len() && (#[trigger] entries@[p]).event@.pubkey
                        == m.deep_view()[mi2] by {
                    if mi2 == mi {
                        let rj = choose|rj: int|
                            0 <= rj < repo_events.deep_view().len()
                                && (#[trigger] repo_events.deep_view()[rj]).pubkey
                                == m.deep_view()[mi2];
                        assert(repo_events.deep_view()[rj].pubkey != mk);
                        assert(false);
                    }
                }
            }
        }
        mi += 1;
    }

    proof {
        if seeds.len() > 0 {
            assert(m.deep_view().contains(seeds[0]));
        } else {
            assert(repo_events.deep_view().len() >= 1);
            assert(cands.contains(repo_events.deep_view()[0]));
            let ci = choose|ci: int| 0 <= ci < cands.len() && cands[ci] == repo_events.deep_view()[0];
            assert(m.deep_view().contains(cands[ci].pubkey));
        }
        assert(m.deep_view().len() >= 1);
        assert(m@.len() == m.deep_view().len());
        // Discovery is complete: what a maintainer's cached announcement
        // lists is itself a maintainer.
        assert forall|e: EventView, x: Seq<char>|
            #![trigger m.deep_view().contains(e.pubkey), tag_rest_values(e.tags, "maintainers"@).contains(x)]
            in_caches(global@, local@, e) && is_announcement_for(e, identifier@)
                && m.deep_view().contains(e.pubkey) && tag_rest_values(
                e.tags,
                "maintainers"@,
            ).contains(x) implies m.deep_view().contains(x) by {
            assert(repo_events.deep_view().contains(e));
            let ri = choose|ri: int|
                0 <= ri < repo_events.deep_view().len() && repo_events.deep_view()[ri] == e;
            assert(tag_rest_values(repo_events.deep_view()[ri].tags, "maintainers"@).contains(x));
        }
        // With no seed, every announcing author counts.
        if seeds.len() == 0 {
            assert forall|e: EventView|
                #![trigger is_announcement_for(e, identifier@)]
                in_caches(global@, local@, e) && is_announcement_for(e, identifier@) implies m
                .deep_view().contains(e.pubkey) by {
                let pred0 = |ev: EventView| matches_any_filter(filters.deep_view(), ev);
                if global@.contains(e) {
                    let gi = choose|gi: int| 0 <= gi < global@.len() && global@[gi] == e;
                    Seq::lemma_filter_contains(global@, pred0, gi);
                    let fi = choose|fi: int|
                        0 <= fi < global@.filter(pred0).len() && global@.filter(pred0)[fi] == e;
                    assert(cands[fi] == e);
                    assert(m.deep_view().contains(cands[fi].pubkey));
                } else {
                    let li = choose|li: int| 0 <= li < local@.len() && local@[li] == e;
                    Seq::lemma_filter_contains(local@, pred0, li);
                    let fi = choose|fi: int|
                        0 <= fi < local@.filter(pred0).len() && local@.filter(pred0)[fi] == e;
                    assert(cands[gdv.len() + fi] == e);
                    assert(m.deep_view().contains(cands[gdv.len() + fi].pubkey));
                }
            }
        }
        // A seed-authored announcement is cached whenever anything resolved.
        if seeds.len() > 0 {
            assert(used_count >= 1);
            let jj = choose|jj: int|
                0 <= jj < cands.len() && seeds.contains((#[trigger] cands[jj]).pubkey);
            assert(in_caches(global@, local@, cands[jj]) && is_announcement_for(
                cands[jj],
                identifier@,
            ) && seeds.contains(cands[jj].pubkey));
        }
        // Entry coverage: a maintainer with any cached announcement has one.
        assert forall|k: int|
            #![trigger m.deep_view()[k]]
            0 <= k < m.deep_view().len() && (exists|e: EventView|
                in_caches(global@, local@, e) && is_announcement_for(e, identifier@) && e.pubkey
                    == m.deep_view()[k]) implies exists|p: int|
            0 <= p < entries@.len() && (#[trigger] entries@[p]).event@.pubkey
                == m.deep_view()[k] by {
            let e = choose|e: EventView|
                in_caches(global@, local@, e) && is_announcement_for(e, identifier@) && e.pubkey
                    == m.deep_view()[k];
            assert(m.deep_view().contains(e.pubkey));
            assert(repo_events.deep_view().contains(e));
            let rj = choose|rj: int|
                0 <= rj < repo_events.deep_view().len() && repo_events.deep_view()[rj] == e;
            assert(repo_events.deep_view()[rj].pubkey == m.deep_view()[k]);
        }
        // Entry timestamps beat every cached announcement by the same author.
        assert forall|p: int, e2: EventView|
            #![trigger entries@[p], is_announcement_for(e2, identifier@)]
            0 <= p < entries@.len() && in_caches(global@, local@, e2) && is_announcement_for(
                e2,
                identifier@,
            ) && e2.pubkey == entries@[p].event@.pubkey implies e2.created_at
            <= entries@[p].event@.created_at by {
            assert(in_caches(global@, local@, entries@[p].event@));
            let ri0 = choose|ri0: int|
                0 <= ri0 < repo_events.deep_view().len() && repo_events.deep_view()[ri0]
                    == entries@[p].event@;
            assert(m.deep_view().contains(repo_events.deep_view()[ri0].pubkey));
            assert(m.deep_view().contains(e2.pubkey));
            assert(repo_events.deep_view().contains(e2));
            let ri = choose|ri: int|
                0 <= ri < repo_events.deep_view().len() && repo_events.deep_view()[ri] == e2;
            assert(repo_events.deep_view()[ri].pubkey == entries@[p].event@.pubkey);
        }
    }
    let mut ident_owned = String::new();
    ident_owned.append(identifier);
    let rr = RepoRef {
        identifier: ident_owned,
        maintainers: m,
        relays,
        git_server_urls,
        events: entries,
    };
    proof {
        assert(rr.maintainers.deep_view() == m.deep_view());
        assert(rr.events@ == entries@);
        assert forall|k: int|
            #![trigger rr.maintainers.deep_view()[k]]
            0 <= k < rr.maintainers.deep_view().len() && (exists|e: EventView|
                in_caches(global@, local@, e) && is_announcement_for(e, identifier@) && e.pubkey
                    == rr.maintainers.deep_view()[k]) implies exists|p: int|
            0 <= p < rr.events@.len() && (#[trigger] rr.events@[p]).event@.pubkey
                == rr.maintainers.deep_view()[k] by {
            assert(exists|e: EventView|
                in_caches(global@, local@, e) && is_announcement_for(e, identifier@) && e.pubkey
                    == m.deep_view()[k]);
            assert(exists|p: int|
                0 <= p < entries@.len() && (#[trigger] entries@[p]).event@.pubkey
                    == m.deep_view()[k]);
            let p = choose|p: int|
                0 <= p < entries@.len() && (#[trigger] entries@[p]).event@.pubkey
                    == m.deep_view()[k];
            assert(rr.events@[p].event@.pubkey == rr.maintainers.deep_view()[k]);
        }
    }
    Ok(rr)
}

pub(crate) proof fn lemma_count_trues_zero(s: Seq<bool>)
    requires
        forall|k: int| 0 <= k < s.len() ==> !s[k],
    ensures
        count_trues(s) == 0,
    decreases s.len(),
{
    if s.len() > 0 {
        lemma_count_trues_zero(s.drop_last());
    }
}

proof fn lemma_count_trues_zero_all(s: Seq<bool>, c: nat)
    requires
        count_trues(s) == c,
        c == 0,
    ensures
        forall|k: int| 0 <= k < s.len() ==> !s[k],
    decreases s.len(),
{
    if s.len() > 0 {
        lemma_count_trues_zero_all(s.drop_last(), c);
        assert forall|k: int| 0 <= k < s.len() implies !s[k] by {
            if k < s.len() - 1 {
                assert(s.drop_last()[k] == s[k]);
            }
        }
    }
}

} // verus!
