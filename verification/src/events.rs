//! The signed-event model: an immutable record of id, author, kind, creation
//! time, tags, content and signature, together with the tag accessors and the
//! event-kind predicates that the rest of the engine is built on.
//!
//! Hashes and keys are carried as their lowercase hex encodings; tags are
//! lists of strings whose first element is the tag name.

use core::str::FromStr;
use nostr::secp256k1::schnorr::Signature;
use nostr::{EventId, Kind, PublicKey, Tag, Timestamp};
use vstd::prelude::*;

use crate::strings::str_eq;

verus! {

/// Kind of a repository announcement event (replaceable).
pub const REPO_REF_KIND: u16 = 30617;

/// Kind of a patch event; a patch-set root shares this kind and carries a
/// `t` tag `root`.
pub const PATCH_KIND: u16 = 1617;

/// Kind of a status event that re-opens a proposal.
pub const STATUS_OPEN_KIND: u16 = 1630;

/// Kind of a status event that marks a proposal applied or merged.
pub const STATUS_APPLIED_KIND: u16 = 1631;

/// Kind of a status event that closes a proposal.
pub const STATUS_CLOSED_KIND: u16 = 1632;

/// Kind of a status event that marks a proposal a draft.
pub const STATUS_DRAFT_KIND: u16 = 1633;

/// Kind of a profile metadata event.
pub const METADATA_KIND: u16 = 0;

/// Kind of a relay-list event.
pub const RELAY_LIST_KIND: u16 = 10002;

/// Kind of an event that retracts an earlier event by id.
pub const EVENT_DELETION_KIND: u16 = 5;

/// A signed event as the engine sees it. `id`, `pubkey` and `sig` are hex
/// encodings; `created_at` is seconds since the epoch.
pub struct Event {
    pub id: String,
    pub pubkey: String,
    pub created_at: u64,
    pub kind: u16,
    pub tags: Vec<Vec<String>>,
    pub content: String,
    pub sig: String,
}

/// The mathematical shape of an event.
pub struct EventView {
    pub id: Seq<char>,
    pub pubkey: Seq<char>,
    pub created_at: u64,
    pub kind: u16,
    pub tags: Seq<Seq<Seq<char>>>,
    pub content: Seq<char>,
    pub sig: Seq<char>,
}

impl View for Event {
    type V = EventView;

    open spec fn view(&self) -> EventView {
        EventView {
            id: self.id@,
            pubkey: self.pubkey@,
            created_at: self.created_at,
            kind: self.kind,
            tags: self.tags.deep_view(),
            content: self.content@,
            sig: self.sig@,
        }
    }
}

impl DeepView for Event {
    type V = EventView;

    open spec fn deep_view(&self) -> EventView {
        self.view()
    }
}

/// Whether the signed event with these fields passes the event network's
/// integrity rules: its id is the digest of the canonical encoding of the
/// other fields and its signature verifies against its author key.
pub uninterp spec fn event_sig_ok(
    id: Seq<char>,
    pubkey: Seq<char>,
    created_at: u64,
    kind: u16,
    tags: Seq<Seq<Seq<char>>>,
    content: Seq<char>,
    sig: Seq<char>,
) -> bool;

/// An event is valid when its id and signature check out.
pub open spec fn event_valid(e: EventView) -> bool {
    event_sig_ok(e.id, e.pubkey, e.created_at, e.kind, e.tags, e.content, e.sig)
}

/// Relies on `nostr::Event::verify`, which checks that the id is the digest
/// of the canonical encoding and that the signature is a valid schnorr
/// signature over the id by the author key. The fields are rebuilt into a
/// `nostr::Event` through that crate's hex and tag parsers; a field that does
/// not parse cannot belong to a valid event.
#[verifier::external_body]
pub(crate) fn check_event_integrity(e: &Event) -> (r: bool)
    ensures
        r == event_sig_ok(
            e@.id,
            e@.pubkey,
            e@.created_at,
            e@.kind,
            e@.tags,
            e@.content,
            e@.sig,
        ),
{
    let Ok(id) = EventId::from_hex(&e.id) else { return false };
    let Ok(pubkey) = PublicKey::from_hex(&e.pubkey) else { return false };
    let Ok(sig) = Signature::from_str(&e.sig) else { return false };
    let mut tags: Vec<Tag> = Vec::new();
    for tag in e.tags.iter() {
        let Ok(tag) = Tag::parse(tag) else { return false };
        tags.push(tag);
    }
    let (ts, kind) = (Timestamp::from(e.created_at), Kind::from(e.kind));
    nostr::Event::new(id, pubkey, ts, kind, tags, e.content.clone(), sig).verify().is_ok()
}

/// The kinds of status events, in the order the engine queries them.
pub fn status_kinds() -> (r: Vec<u16>)
    ensures
        r@ == seq![STATUS_OPEN_KIND, STATUS_APPLIED_KIND, STATUS_CLOSED_KIND, STATUS_DRAFT_KIND],
{
    let mut r: Vec<u16> = Vec::new();
    r.push(STATUS_OPEN_KIND);
    r.push(STATUS_APPLIED_KIND);
    r.push(STATUS_CLOSED_KIND);
    r.push(STATUS_DRAFT_KIND);
    assert(r@ =~= seq![
        STATUS_OPEN_KIND,
        STATUS_APPLIED_KIND,
        STATUS_CLOSED_KIND,
        STATUS_DRAFT_KIND,
    ]);
    r
}

/// Whether a kind is one of the status kinds.
pub open spec fn is_status_kind(kind: u16) -> bool {
    kind == STATUS_OPEN_KIND || kind == STATUS_APPLIED_KIND || kind == STATUS_CLOSED_KIND
        || kind == STATUS_DRAFT_KIND
}

/// Whether a tag names `name` and carries at least one value.
pub open spec fn tag_matches(tag: Seq<Seq<char>>, name: Seq<char>) -> bool {
    tag.len() >= 2 && tag[0] == name
}

/// The first tag named `name` that carries a value.
pub open spec fn first_tag_with_name(tags: Seq<Seq<Seq<char>>>, name: Seq<char>) -> Option<
    Seq<Seq<char>>,
>
    decreases tags.len(),
{
    if tags.len() == 0 {
        None
    } else if tag_matches(tags[0], name) {
        Some(tags[0])
    } else {
        first_tag_with_name(tags.drop_first(), name)
    }
}

/// The first value of the first tag named `name`, if any.
pub open spec fn tag_value_view(tags: Seq<Seq<Seq<char>>>, name: Seq<char>) -> Option<Seq<char>> {
    match first_tag_with_name(tags, name) {
        Some(tag) => Some(tag[1]),
        None => None,
    }
}

proof fn lemma_first_tag_skip(tags: Seq<Seq<Seq<char>>>, name: Seq<char>, i: int)
    requires
        0 <= i <= tags.len(),
        forall|k: int| 0 <= k < i ==> !tag_matches(tags[k], name),
    ensures
        first_tag_with_name(tags, name) == first_tag_with_name(tags.skip(i), name),
    decreases i,
{
    if i > 0 {
        assert(tags.drop_first().skip(i - 1) =~= tags.skip(i));
        lemma_first_tag_skip(tags.drop_first(), name, i - 1);
    } else {
        assert(tags.skip(0) =~= tags);
    }
}

/// The first value of the first tag named `name`, if any.
pub fn tag_value(e: &Event, name: &str) -> (r: Option<String>)
    ensures
        r.deep_view() == tag_value_view(e@.tags, name@),
{
    let n = e.tags.len();
    let mut i: usize = 0;
    while i < n
        invariant
            i <= n,
            n == e.tags.len(),
            forall|k: int| 0 <= k < i ==> !tag_matches(e@.tags[k], name@),
        decreases n - i,
    {
        let tag = &e.tags[i];
        if tag.len() >= 2 && str_eq(tag[0].as_str(), name) {
            proof {
                lemma_first_tag_skip(e@.tags, name@, i as int);
                assert(e@.tags.skip(i as int)[0] == e@.tags[i as int]);
                assert(tag_matches(e@.tags.skip(i as int)[0], name@));
            }
            return Some(tag[1].clone());
        }
        assert(e@.tags[i as int] == e.tags@[i as int].deep_view());
        i += 1;
    }
    proof {
        lemma_first_tag_skip(e@.tags, name@, n as int);
        assert(e@.tags.skip(n as int) =~= Seq::<Seq<Seq<char>>>::empty());
    }
    None
}

/// Whether some tag named `name` carries `value` as its first value.
pub open spec fn has_tag_pair(tags: Seq<Seq<Seq<char>>>, name: Seq<char>, value: Seq<char>) -> bool {
    exists|i: int|
        0 <= i < tags.len() && tag_matches(tags[i], name) && tags[i][1] == value
}

/// Whether the event carries a tag `name` whose first value is `value`.
pub fn has_tag(e: &Event, name: &str, value: &str) -> (r: bool)
    ensures
        r == has_tag_pair(e@.tags, name@, value@),
{
    let n = e.tags.len();
    let mut i: usize = 0;
    while i < n
        invariant
            i <= n,
            n == e.tags.len(),
            forall|k: int|
                0 <= k < i ==> !(tag_matches(e@.tags[k], name@) && e@.tags[k][1] == value@),
        decreases n - i,
    {
        let tag = &e.tags[i];
        if tag.len() >= 2 && str_eq(tag[0].as_str(), name) && str_eq(tag[1].as_str(), value) {
            assert(tag_matches(e@.tags[i as int], name@) && e@.tags[i as int][1] == value@);
            return true;
        }
        assert(e@.tags[i as int] == e.tags@[i as int].deep_view());
        i += 1;
    }
    false
}

/// A patch-set root: a patch event marked as the root of a proposal.
pub open spec fn is_patch_set_root(e: EventView) -> bool {
    e.kind == PATCH_KIND && has_tag_pair(e.tags, "t"@, "root"@)
}

/// Whether the event roots a proposal.
pub fn event_is_patch_set_root(e: &Event) -> (r: bool)
    ensures
        r == is_patch_set_root(e@),
{
    e.kind == PATCH_KIND && has_tag(e, "t", "root")
}

/// A revision root: a patch-set root that replaces an earlier root, published
/// by a force push. Listings must not advertise it under its own id.
pub open spec fn is_revision_root(e: EventView) -> bool {
    has_tag_pair(e.tags, "t"@, "revision-root"@)
}

/// Whether the event is the root of a proposal revision.
pub fn event_is_revision_root(e: &Event) -> (r: bool)
    ensures
        r == is_revision_root(e@),
{
    has_tag(e, "t", "revision-root")
}

/// The commit a patch event carries, from its `commit` tag.
pub open spec fn patch_commit_view(e: EventView) -> Option<Seq<char>> {
    tag_value_view(e.tags, "commit"@)
}

/// The commit a patch event carries.
pub fn get_commit_id_from_patch(e: &Event) -> (r: Option<String>)
    ensures
        r.deep_view() == patch_commit_view(e@),
{
    tag_value(e, "commit")
}

/// The parent of the commit a patch event carries, from its `parent-commit`
/// tag.
pub open spec fn patch_parent_commit_view(e: EventView) -> Option<Seq<char>> {
    tag_value_view(e.tags, "parent-commit"@)
}

/// The parent of the commit a patch event carries.
pub fn get_parent_commit_from_patch(e: &Event) -> (r: Option<String>)
    ensures
        r.deep_view() == patch_parent_commit_view(e@),
{
    tag_value(e, "parent-commit")
}

/// The identifier of a replaceable event, from its `d` tag.
pub open spec fn event_identifier_view(e: EventView) -> Option<Seq<char>> {
    tag_value_view(e.tags, "d"@)
}

/// The identifier of a replaceable event.
pub fn event_identifier(e: &Event) -> (r: Option<String>)
    ensures
        r.deep_view() == event_identifier_view(e@),
{
    tag_value(e, "d")
}

/// The first values of all tags named `name`, in tag order.
pub open spec fn tag_first_values(tags: Seq<Seq<Seq<char>>>, name: Seq<char>) -> Seq<Seq<char>>
    decreases tags.len(),
{
    if tags.len() == 0 {
        Seq::empty()
    } else {
        let head: Seq<Seq<char>> = if tag_matches(tags[0], name) {
            seq![tags[0][1]]
        } else {
            Seq::empty()
        };
        head + tag_first_values(tags.drop_first(), name)
    }
}

/// The ids of the events an event references through its `e` tags.
pub open spec fn referenced_event_ids(tags: Seq<Seq<Seq<char>>>) -> Seq<Seq<char>> {
    tag_first_values(tags, "e"@)
}

proof fn lemma_tag_first_values_concat(
    a: Seq<Seq<Seq<char>>>,
    b: Seq<Seq<Seq<char>>>,
    name: Seq<char>,
)
    ensures
        tag_first_values(a + b, name) == tag_first_values(a, name) + tag_first_values(b, name),
    decreases a.len(),
{
    if a.len() == 0 {
        assert(a + b =~= b);
        assert(tag_first_values(a, name) + tag_first_values(b, name) =~= tag_first_values(
            b,
            name,
        ));
    } else {
        assert((a + b).drop_first() =~= a.drop_first() + b);
        lemma_tag_first_values_concat(a.drop_first(), b, name);
        assert(tag_first_values(a + b, name) =~= tag_first_values(a, name) + tag_first_values(
            b,
            name,
        ));
    }
}

/// The first values of all tags named `name`, in tag order.
pub fn tag_values(e: &Event, name: &str) -> (r: Vec<String>)
    ensures
        r.deep_view() == tag_first_values(e@.tags, name@),
{
    let n = e.tags.len();
    let mut r: Vec<String> = Vec::new();
    let mut i: usize = 0;
    while i < n
        invariant
            i <= n,
            n == e.tags.len(),
            r.deep_view() == tag_first_values(e@.tags.take(i as int), name@),
        decreases n - i,
    {
        let ghost prefix = e@.tags.take(i as int);
        let ghost prev = r.deep_view();
        let tag = &e.tags[i];
        assert(e@.tags[i as int] == e.tags@[i as int].deep_view());
        if tag.len() >= 2 && str_eq(tag[0].as_str(), name) {
            let x = tag[1].clone();
            r.push(x);
            proof {
                assert forall|k: int| 0 <= k < r@.len() implies #[trigger] r.deep_view()[k]
                    == prev.push(x@)[k] by {
                    if k < prev.len() {
                        assert(r.deep_view()[k] == prev[k]);
                    } else {
                        assert(r.deep_view()[k] == x@);
                    }
                }
                assert(r.deep_view() =~= prev.push(x@));
            }
        }
        proof {
            assert(e@.tags.take(i + 1) =~= prefix + seq![e@.tags[i as int]]);
            lemma_tag_first_values_concat(prefix, seq![e@.tags[i as int]], name@);
            assert(seq![e@.tags[i as int]].drop_first() =~= Seq::<Seq<Seq<char>>>::empty());
            assert(tag_first_values(Seq::<Seq<Seq<char>>>::empty(), name@) =~= Seq::<
                Seq<char>,
            >::empty());
            assert(r.deep_view() =~= tag_first_values(e@.tags.take(i + 1), name@));
        }
        i += 1;
    }
    assert(e@.tags.take(n as int) =~= e@.tags);
    r
}

/// The ids of the events this event references through its `e` tags.
pub fn event_id_refs(e: &Event) -> (r: Vec<String>)
    ensures
        r.deep_view() == referenced_event_ids(e@.tags),
{
    tag_values(e, "e")
}

/// All values carried by tags named `name`, in tag order.
pub open spec fn tag_rest_values(tags: Seq<Seq<Seq<char>>>, name: Seq<char>) -> Seq<Seq<char>>
    decreases tags.len(),
{
    if tags.len() == 0 {
        Seq::empty()
    } else {
        let head: Seq<Seq<char>> = if tags[0].len() >= 1 && tags[0][0] == name {
            tags[0].drop_first()
        } else {
            Seq::empty()
        };
        head + tag_rest_values(tags.drop_first(), name)
    }
}

proof fn lemma_tag_rest_values_concat(a: Seq<Seq<Seq<char>>>, b: Seq<Seq<Seq<char>>>, name: Seq<char>)
    ensures
        tag_rest_values(a + b, name) == tag_rest_values(a, name) + tag_rest_values(b, name),
    decreases a.len(),
{
    if a.len() == 0 {
        assert(a + b =~= b);
        assert(tag_rest_values(a, name) + tag_rest_values(b, name) =~= tag_rest_values(b, name));
    } else {
        assert((a + b).drop_first() =~= a.drop_first() + b);
        lemma_tag_rest_values_concat(a.drop_first(), b, name);
        assert(tag_rest_values(a + b, name) =~= tag_rest_values(a, name) + tag_rest_values(
            b,
            name,
        ));
    }
}

/// All values carried by tags named `name`, in tag order.
pub fn tag_multi_values(e: &Event, name: &str) -> (r: Vec<String>)
    ensures
        r.deep_view() == tag_rest_values(e@.tags, name@),
{
    let n = e.tags.len();
    let mut r: Vec<String> = Vec::new();
    let mut i: usize = 0;
    while i < n
        invariant
            i <= n,
            n == e.tags.len(),
            r.deep_view() == tag_rest_values(e@.tags.take(i as int), name@),
        decreases n - i,
    {
        let ghost prefix = e@.tags.take(i as int);
        let tag = &e.tags[i];
        assert(e@.tags[i as int] == e.tags@[i as int].deep_view());
        if tag.len() >= 1 && str_eq(tag[0].as_str(), name) {
            let m = tag.len();
            let mut j: usize = 1;
            let ghost before = r.deep_view();
            let ghost cur = e@.tags[i as int];
            while j < m
                invariant
                    1 <= j <= m,
                    m == tag@.len(),
                    tag.deep_view() == cur,
                    r@.len() == before.len() + j - 1,
                    forall|k: int| 0 <= k < before.len() ==> #[trigger] r.deep_view()[k]
                        == before[k],
                    forall|k: int|
                        before.len() <= k < r@.len() ==> #[trigger] r.deep_view()[k] == cur[k
                            - before.len() + 1],
                decreases m - j,
            {
                let ghost prev = r.deep_view();
                let x = tag[j].clone();
                r.push(x);
                proof {
                    assert(x@ == tag.deep_view()[j as int]);
                    assert forall|k: int| 0 <= k < before.len() implies #[trigger] r.deep_view()[k]
                        == before[k] by {
                        assert(r.deep_view()[k] == prev[k]);
                    }
                    assert forall|k: int| before.len() <= k < r@.len() implies #[trigger] r
                        .deep_view()[k] == cur[k - before.len() + 1] by {
                        if k < before.len() + j - 1 {
                            assert(r.deep_view()[k] == prev[k]);
                        } else {
                            assert(r.deep_view()[k] == x@);
                        }
                    }
                }
                j += 1;
            }
            proof {
                assert(r.deep_view() =~= before + cur.drop_first());
            }
        } else {
            let ghost before = r.deep_view();
            assert(r.deep_view() =~= before + Seq::<Seq<char>>::empty());
        }
        proof {
            assert(e@.tags.take(i + 1) =~= prefix + seq![e@.tags[i as int]]);
            lemma_tag_rest_values_concat(prefix, seq![e@.tags[i as int]], name@);
            assert(seq![e@.tags[i as int]].drop_first() =~= Seq::<Seq<Seq<char>>>::empty());
            assert(tag_rest_values(Seq::<Seq<Seq<char>>>::empty(), name@) =~= Seq::<
                Seq<char>,
            >::empty());
            assert(tag_rest_values(seq![e@.tags[i as int]], name@) =~= if e@.tags[
                i as int
            ].len() >= 1 && e@.tags[i as int][0] == name@ {
                e@.tags[i as int].drop_first()
            } else {
                Seq::<Seq<char>>::empty()
            });
            assert(r.deep_view() =~= tag_rest_values(e@.tags.take(i + 1), name@));
        }
        i += 1;
    }
    assert(e@.tags.take(n as int) =~= e@.tags);
    r
}

/// An owned copy of a list of strings.
pub fn clone_string_vec(v: &Vec<String>) -> (r: Vec<String>)
    ensures
        r.deep_view() == v.deep_view(),
{
    let n = v.len();
    let mut r: Vec<String> = Vec::new();
    let mut i: usize = 0;
    while i < n
        invariant
            i <= n,
            n == v.len(),
            r@.len() == i,
            forall|k: int| 0 <= k < i ==> r.deep_view()[k] == v.deep_view()[k],
        decreases n - i,
    {
        let ghost prev = r.deep_view();
        let x = v[i].clone();
        r.push(x);
        proof {
            assert forall|k: int| 0 <= k < i + 1 implies r.deep_view()[k] == v.deep_view()[k] by {
                if k < i {
                    assert(r.deep_view()[k] == prev[k]);
                } else {
                    assert(r.deep_view()[k] == x@);
                    assert(v.deep_view()[k] == v@[k]@);
                }
            }
        }
        i += 1;
    }
    assert(r.deep_view() =~= v.deep_view());
    r
}

/// An owned copy of a tag list.
pub fn clone_tags(v: &Vec<Vec<String>>) -> (r: Vec<Vec<String>>)
    ensures
        r.deep_view() == v.deep_view(),
{
    let n = v.len();
    let mut r: Vec<Vec<String>> = Vec::new();
    let mut i: usize = 0;
    while i < n
        invariant
            i <= n,
            n == v.len(),
            r@.len() == i,
            forall|k: int| 0 <= k < i ==> r.deep_view()[k] == v.deep_view()[k],
        decreases n - i,
    {
        let ghost prev = r.deep_view();
        let tag = clone_string_vec(&v[i]);
        r.push(tag);
        proof {
            assert forall|k: int| 0 <= k < i + 1 implies r.deep_view()[k] == v.deep_view()[k] by {
                if k < i {
                    assert(r.deep_view()[k] == prev[k]);
                } else {
                    assert(r.deep_view()[k] == tag.deep_view());
                    assert(v.deep_view()[k] == v@[k].deep_view());
                }
            }
        }
        i += 1;
    }
    assert(r.deep_view() =~= v.deep_view());
    r
}

impl Event {
    /// An owned copy of the event.
    pub fn duplicate(&self) -> (r: Event)
        ensures
            r@ == self@,
    {
        Event {
            id: self.id.clone(),
            pubkey: self.pubkey.clone(),
            created_at: self.created_at,
            kind: self.kind,
            tags: clone_tags(&self.tags),
            content: self.content.clone(),
            sig: self.sig.clone(),
        }
    }
}

} // verus!
