//! The event cache: a durable store of signed events, queryable by filter,
//! ordered by creation time. The engine keeps two of them — one scoped to a
//! repository, one shared across repositories — both with the same rules:
//! an event enters only with a verified signature and id, at most once per
//! id, and saving is idempotent.

use vstd::prelude::*;

use crate::events::{
    check_event_integrity, event_valid, is_status_kind, referenced_event_ids, Event, EventView,
    STATUS_OPEN_KIND,
};
use crate::filters::{matches_any_filter, Filter};
use crate::strings::{str_eq, vec_contains_str};

verus! {

/// Why a save was refused.
#[derive(Clone, Copy, PartialEq, Eq, Structural, Debug)]
pub enum CacheError {
    /// The event's id or signature does not verify.
    Integrity,
}

/// Whether a cache state holds an event with this id.
pub open spec fn cache_contains_id(c: Seq<EventView>, id: Seq<char>) -> bool {
    exists|i: int| 0 <= i < c.len() && c[i].id == id
}

/// Every event in the cache state is valid.
pub open spec fn all_events_valid(c: Seq<EventView>) -> bool {
    forall|i: int| 0 <= i < c.len() ==> event_valid(#[trigger] c[i])
}

/// No two events in the cache state share an id.
pub open spec fn unique_ids(c: Seq<EventView>) -> bool {
    forall|i: int, j: int| 0 <= i < j < c.len() ==> c[i].id != c[j].id
}

/// The cache state is ordered by ascending creation time.
pub open spec fn sorted_by_time(c: Seq<EventView>) -> bool {
    forall|i: int, j: int| 0 <= i <= j < c.len() ==> c[i].created_at <= c[j].created_at
}

/// Where a new event with creation time `t` goes: after every event no newer
/// than `t`, before the first newer one.
pub open spec fn insert_pos(c: Seq<EventView>, t: u64) -> int
    decreases c.len(),
{
    if c.len() == 0 || c[0].created_at > t {
        0
    } else {
        1 + insert_pos(c.drop_first(), t)
    }
}

/// What one save leaves in the cache: nothing new for an invalid or an
/// already-present event, otherwise the event at its time-ordered place.
pub open spec fn spec_save(c: Seq<EventView>, e: EventView) -> Seq<EventView> {
    if !event_valid(e) || cache_contains_id(c, e.id) {
        c
    } else {
        c.insert(insert_pos(c, e.created_at), e)
    }
}

pub proof fn lemma_insert_pos_bounds(c: Seq<EventView>, t: u64)
    ensures
        0 <= insert_pos(c, t) <= c.len(),
    decreases c.len(),
{
    if !(c.len() == 0 || c[0].created_at > t) {
        lemma_insert_pos_bounds(c.drop_first(), t);
    }
}

proof fn lemma_insert_pos_from_prefix(c: Seq<EventView>, t: u64, i: int)
    requires
        0 <= i <= c.len(),
        forall|k: int| 0 <= k < i ==> c[k].created_at <= t,
        i == c.len() || c[i].created_at > t,
    ensures
        insert_pos(c, t) == i,
    decreases i,
{
    if i == 0 {
    } else {
        assert(c[0].created_at <= t);
        lemma_insert_pos_from_prefix(c.drop_first(), t, i - 1);
    }
}

/// A store of signed events, ordered by ascending creation time. The two
/// caches of the engine — per-repository and global — are both values of
/// this type; the persistence of either is its caller's concern.
pub struct EventCache {
    events: Vec<Event>,
}

impl View for EventCache {
    type V = Seq<EventView>;

    closed spec fn view(&self) -> Seq<EventView> {
        self.events.deep_view()
    }
}

impl EventCache {
    /// The cache holds only events whose signature and id verified, at most
    /// one per id, in ascending creation time.
    pub open spec fn wf(&self) -> bool {
        &&& all_events_valid(self@)
        &&& unique_ids(self@)
        &&& sorted_by_time(self@)
    }

    /// An empty cache.
    pub fn new() -> (r: EventCache)
        ensures
            r@ == Seq::<EventView>::empty(),
            r.wf(),
    {
        let r = EventCache { events: Vec::new() };
        assert(r@ =~= Seq::<EventView>::empty());
        r
    }

    /// How many events the cache holds.
    pub fn len(&self) -> (r: usize)
        ensures
            r == self@.len(),
    {
        self.events.len()
    }

    /// Whether the cache holds an event with this id.
    pub fn contains_id(&self, id: &str) -> (r: bool)
        ensures
            r == cache_contains_id(self@, id@),
    {
        let n = self.events.len();
        let mut i: usize = 0;
        while i < n
            invariant
                i <= n,
                n == self.events.len(),
                n == self@.len(),
                forall|k: int| 0 <= k < i ==> self@[k].id != id@,
            decreases n - i,
        {
            assert(self@[i as int] == self.events@[i as int]@);
            if str_eq(self.events[i].id.as_str(), id) {
                return true;
            }
            i += 1;
        }
        false
    }

    /// Save one event. A new valid event is stored at its time-ordered
    /// place and the save answers `true`; a valid event already present
    /// leaves the cache unchanged and the save answers `false`; an event
    /// whose id or signature does not verify is refused and the cache is
    /// unchanged.
    pub fn save_event(&mut self, e: &Event) -> (r: Result<bool, CacheError>)
        requires
            old(self).wf(),
        ensures
            final(self).wf(),
            final(self)@ == spec_save(old(self)@, e@),
            match r {
                Ok(is_new) => event_valid(e@) && (is_new == !cache_contains_id(
                    old(self)@,
                    e@.id,
                )),
                Err(err) => err == CacheError::Integrity && !event_valid(e@) && final(self)@
                    == old(self)@,
            },
    {
        if !check_event_integrity(e) {
            return Err(CacheError::Integrity);
        }
        if self.contains_id(e.id.as_str()) {
            return Ok(false);
        }
        let n = self.events.len();
        let mut i: usize = 0;
        while i < n && self.events[i].created_at <= e.created_at
            invariant
                i <= n,
                n == self.events.len(),
                n == self@.len(),
                forall|k: int| 0 <= k < i ==> self@[k].created_at <= e@.created_at,
            decreases n - i,
        {
            assert(self@[i as int] == self.events@[i as int]@);
            i += 1;
        }
        proof {
            if i < n {
                assert(self@[i as int] == self.events@[i as int]@);
            }
            lemma_insert_pos_from_prefix(self@, e@.created_at, i as int);
        }
        let ghost before = self@;
        let ghost t = e@.created_at;
        self.events.insert(i, e.duplicate());
        proof {
            assert forall|k: int| 0 <= k < self@.len() implies #[trigger] self@[k] == before.insert(
                i as int,
                e@,
            )[k] by {
                assert(self@[k] == self.events@[k]@);
            }
            assert(self@ =~= before.insert(i as int, e@));
            assert forall|p: int, q: int| 0 <= p <= q < self@.len() implies self@[p].created_at
                <= self@[q].created_at by {
                let c2 = before.insert(i as int, e@);
                assert(c2[i as int] == e@);
                if p < i {
                    assert(c2[p] == before[p]);
                    assert(before[p].created_at <= t);
                } else if p > i {
                    assert(c2[p] == before[p - 1]);
                }
                if q < i {
                    assert(c2[q] == before[q]);
                } else if q > i {
                    assert(c2[q] == before[q - 1]);
                    assert(before[q - 1].created_at >= before[i as int].created_at);
                    assert(before[i as int].created_at > t);
                }
            }
        }
        Ok(true)
    }

    /// The events that pass any of the filters, in ascending creation time.
    pub fn query(&self, filters: &Vec<Filter>) -> (r: Vec<Event>)
        ensures
            r.deep_view() == self@.filter(
                |ev: EventView| matches_any_filter(filters.deep_view(), ev),
            ),
    {
        let ghost pred = |ev: EventView| matches_any_filter(filters.deep_view(), ev);
        let n = self.events.len();
        let mut r: Vec<Event> = Vec::new();
        let mut i: usize = 0;
        proof {
            assert(self@.take(0) =~= Seq::<EventView>::empty());
            reveal(Seq::filter);
        }
        while i < n
            invariant
                i <= n,
                n == self.events.len(),
                n == self@.len(),
                r.deep_view() == self@.take(i as int).filter(pred),
                pred == (|ev: EventView| matches_any_filter(filters.deep_view(), ev)),
            decreases n - i,
        {
            let ghost prefix = self@.take(i as int);
            let ghost prev = r.deep_view();
            assert(self@[i as int] == self.events@[i as int]@);
            if crate::filters::event_matches_any_filter(filters, &self.events[i]) {
                let x = self.events[i].duplicate();
                r.push(x);
                proof {
                    assert forall|k: int| 0 <= k < r@.len() implies #[trigger] r.deep_view()[k]
                        == prev.push(x@)[k] by {
                        if k < prev.len() {
                            assert(r.deep_view()[k] == prev[k]);
                        } else {
                            assert(r.deep_view()[k] == x@);
                        }
                    }
                    assert(r.deep_view() =~= prev.push(x@));
                }
            }
            proof {
                assert(self@.take(i + 1) =~= prefix + seq![self@[i as int]]);
                Seq::<EventView>::filter_distributes_over_add(prefix, seq![self@[i as int]], pred);
                reveal(Seq::filter);
                assert(seq![self@[i as int]].drop_last() =~= Seq::<EventView>::empty());
                assert(Seq::<EventView>::empty().filter(pred) =~= Seq::<EventView>::empty());
                assert(seq![self@[i as int]].filter(pred) =~= if pred(self@[i as int]) {
                    seq![self@[i as int]]
                } else {
                    Seq::<EventView>::empty()
                });
                assert(r.deep_view() =~= self@.take(i + 1).filter(pred));
            }
            i += 1;
        }
        assert(self@.take(n as int) =~= self@);
        r
    }

    /// The ids of the events that pass any of the filters, in ascending
    /// creation time; the cheap "already have" check.
    pub fn ids_matching(&self, filters: &Vec<Filter>) -> (r: Vec<String>)
        ensures
            r.deep_view() == self@.filter(
                |ev: EventView| matches_any_filter(filters.deep_view(), ev),
            ).map_values(|ev: EventView| ev.id),
    {
        let q = self.query(filters);
        let ghost matching = self@.filter(
            |ev: EventView| matches_any_filter(filters.deep_view(), ev),
        );
        let n = q.len();
        let mut r: Vec<String> = Vec::new();
        let mut i: usize = 0;
        while i < n
            invariant
                i <= n,
                n == q.len(),
                q.deep_view() == matching,
                r@.len() == i,
                forall|k: int| 0 <= k < i ==> #[trigger] r.deep_view()[k] == matching[k].id,
            decreases n - i,
        {
            let ghost prev = r.deep_view();
            let x = q[i].id.clone();
            r.push(x);
            proof {
                assert(q@[i as int]@ == matching[i as int]);
                assert forall|k: int| 0 <= k < i + 1 implies #[trigger] r.deep_view()[k]
                    == matching[k].id by {
                    if k < i {
                        assert(r.deep_view()[k] == prev[k]);
                    } else {
                        assert(r.deep_view()[k] == x@);
                    }
                }
            }
            i += 1;
        }
        assert(r.deep_view() =~= matching.map_values(|ev: EventView| ev.id));
        r
    }
}

/// The kind of the latest status event referencing `root_id` in a cache
/// state that is ordered by ascending creation time; absent any, open.
pub open spec fn spec_latest_status_kind(c: Seq<EventView>, root_id: Seq<char>) -> u16
    decreases c.len(),
{
    if c.len() == 0 {
        STATUS_OPEN_KIND
    } else if is_status_kind(c.last().kind) && referenced_event_ids(c.last().tags).contains(
        root_id,
    ) {
        c.last().kind
    } else {
        spec_latest_status_kind(c.drop_last(), root_id)
    }
}

/// A proposal is open exactly when its latest status is the open kind —
/// in particular when no status event targets it at all.
pub open spec fn proposal_is_open(c: Seq<EventView>, root_id: Seq<char>) -> bool {
    spec_latest_status_kind(c, root_id) == STATUS_OPEN_KIND
}

impl EventCache {
    /// The kind of the latest status event referencing `root_id`; the open
    /// kind when no status event targets it.
    pub fn latest_status_kind(&self, root_id: &str) -> (r: u16)
        ensures
            r == spec_latest_status_kind(self@, root_id@),
    {
        let n = self.events.len();
        let mut i: usize = n;
        assert(self@.take(n as int) =~= self@);
        while i > 0
            invariant
                i <= n,
                n == self.events.len(),
                n == self@.len(),
                spec_latest_status_kind(self@, root_id@) == spec_latest_status_kind(
                    self@.take(i as int),
                    root_id@,
                ),
            decreases i,
        {
            i -= 1;
            let ghost pre = self@.take(i + 1);
            assert(pre.last() == self@[i as int]);
            assert(pre.drop_last() =~= self@.take(i as int));
            assert(self@[i as int] == self.events@[i as int]@);
            let e = &self.events[i];
            let status = e.kind == crate::events::STATUS_OPEN_KIND || e.kind
                == crate::events::STATUS_APPLIED_KIND || e.kind
                == crate::events::STATUS_CLOSED_KIND || e.kind
                == crate::events::STATUS_DRAFT_KIND;
            if status {
                let refs = crate::events::event_id_refs(e);
                if vec_contains_str(&refs, root_id) {
                    return e.kind;
                }
            }
        }
        assert(self@.take(0) =~= Seq::<EventView>::empty());
        STATUS_OPEN_KIND
    }
}


/// A save never removes an id from the cache.
pub proof fn lemma_spec_save_preserves_ids(c: Seq<EventView>, e: EventView, x: Seq<char>)
    requires
        cache_contains_id(c, x),
    ensures
        cache_contains_id(spec_save(c, e), x),
{
    if event_valid(e) && !cache_contains_id(c, e.id) {
        lemma_insert_pos_bounds(c, e.created_at);
        let pos = insert_pos(c, e.created_at);
        let c2 = c.insert(pos, e);
        let i = choose|i: int| 0 <= i < c.len() && c[i].id == x;
        if i < pos {
            assert(c2[i] == c[i]);
        } else {
            assert(c2[i + 1] == c[i]);
        }
    }
}

/// A save adds no id but the saved event's own.
pub proof fn lemma_spec_save_adds_only(c: Seq<EventView>, e: EventView, x: Seq<char>)
    requires
        cache_contains_id(spec_save(c, e), x),
    ensures
        cache_contains_id(c, x) || x == e.id,
{
    if event_valid(e) && !cache_contains_id(c, e.id) {
        lemma_insert_pos_bounds(c, e.created_at);
        let pos = insert_pos(c, e.created_at);
        let c2 = c.insert(pos, e);
        let i = choose|i: int| 0 <= i < c2.len() && c2[i].id == x;
        if i < pos {
            assert(c2[i] == c[i]);
        } else if i == pos {
            assert(c2[i] == e);
        } else {
            assert(c2[i] == c[i - 1]);
        }
    }
}

/// Save an event in the per-repository cache.
pub fn save_event_in_cache(cache: &mut EventCache, event: &Event) -> (r: Result<
    bool,
    CacheError,
>)
    requires
        old(cache).wf(),
    ensures
        final(cache).wf(),
        final(cache)@ == spec_save(old(cache)@, event@),
        match r {
            Ok(is_new) => event_valid(event@) && (is_new == !cache_contains_id(
                old(cache)@,
                event@.id,
            )),
            Err(err) => err == CacheError::Integrity && !event_valid(event@) && final(cache)@
                == old(cache)@,
        },
{
    cache.save_event(event)
}

/// Save an event in the cache shared across repositories.
pub fn save_event_in_global_cache(cache: &mut EventCache, event: &Event) -> (r: Result<
    bool,
    CacheError,
>)
    requires
        old(cache).wf(),
    ensures
        final(cache).wf(),
        final(cache)@ == spec_save(old(cache)@, event@),
        match r {
            Ok(is_new) => event_valid(event@) && (is_new == !cache_contains_id(
                old(cache)@,
                event@.id,
            )),
            Err(err) => err == CacheError::Integrity && !event_valid(event@) && final(cache)@
                == old(cache)@,
        },
{
    cache.save_event(event)
}

/// Query the per-repository cache.
pub fn get_event_from_cache(cache: &EventCache, filters: &Vec<Filter>) -> (r: Vec<Event>)
    ensures
        r.deep_view() == cache@.filter(
            |ev: EventView| matches_any_filter(filters.deep_view(), ev),
        ),
{
    cache.query(filters)
}

/// Query the cache shared across repositories.
pub fn get_event_from_global_cache(cache: &EventCache, filters: &Vec<Filter>) -> (r: Vec<Event>)
    ensures
        r.deep_view() == cache@.filter(
            |ev: EventView| matches_any_filter(filters.deep_view(), ev),
        ),
{
    cache.query(filters)
}

/// Every event a well-formed cache holds carries a verified signature and a
/// verified id: no event enters a cache without passing the integrity check.
pub proof fn lemma_cache_holds_only_valid_events(c: EventCache)
    requires
        c.wf(),
    ensures
        forall|i: int| 0 <= i < c@.len() ==> event_valid(#[trigger] c@[i]),
{
}

/// Saving an event twice is saving it once: the second save changes nothing,
/// and finds the event already present.
pub proof fn lemma_save_idempotent(c: Seq<EventView>, e: EventView)
    ensures
        spec_save(spec_save(c, e), e) == spec_save(c, e),
        event_valid(e) ==> cache_contains_id(spec_save(c, e), e.id),
{
    if event_valid(e) && !cache_contains_id(c, e.id) {
        lemma_insert_pos_bounds(c, e.created_at);
        let pos = insert_pos(c, e.created_at);
        let c2 = c.insert(pos, e);
        assert(c2[pos] == e);
        assert(cache_contains_id(c2, e.id));
    }
}

} // verus!
